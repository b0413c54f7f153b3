//! The board model: cells, coordinate mapping, line scanning and the
//! win/draw/continue status of a move.

use vstd::prelude::*;

verus! {

/// Largest run-length-to-win the engine accepts.  The bound keeps every
/// score and cell count inside the machine integer types; no realistic
/// board comes anywhere near it.
pub const MAX_SEQ_TO_WIN: usize = 100_000_000;

/// One cell of the board: either empty or filled with a player's symbol.
#[derive(Clone, Copy, PartialEq, Eq, Structural, Debug)]
pub enum SquareState {
    Filled(char),
    Empty,
}

/// The outcome of applying one move to the board.
#[derive(Clone, Copy, PartialEq, Eq, Structural, Debug)]
pub enum TurnState {
    Continue,
    Draw,
    Error,
    Victory,
}

/// The mathematical model of a board: dimensions, run length to win,
/// the row-major cell sequence and the number of filled cells.
#[verifier::ext_equal]
pub ghost struct BoardView {
    pub xs: int,
    pub ys: int,
    pub k: int,
    pub cells: Seq<SquareState>,
    pub filled: int,
}

/// Number of filled cells in a cell sequence.
pub open spec fn count_filled(s: Seq<SquareState>) -> int
    decreases s.len(),
{
    if s.len() == 0 {
        0
    } else {
        count_filled(s.drop_last()) + if s.last() is Filled {
            1int
        } else {
            0int
        }
    }
}

impl BoardView {
    /// A well-formed board: positive dimensions, a cell sequence of the
    /// right length, a bounded positive run length, and a filled count
    /// that agrees with the cells.
    pub open spec fn wf(self) -> bool {
        &&& 1 <= self.xs
        &&& 1 <= self.ys
        &&& 1 <= self.k <= MAX_SEQ_TO_WIN
        &&& self.xs * self.ys <= usize::MAX
        &&& self.cells.len() == self.xs * self.ys
        &&& self.filled == count_filled(self.cells)
    }

    pub open spec fn size(self) -> int {
        self.xs * self.ys
    }

    pub open spec fn in_bounds(self, x: int, y: int) -> bool {
        0 <= x < self.xs && 0 <= y < self.ys
    }

    /// Row-major flat index of a coordinate.
    pub open spec fn idx(self, x: int, y: int) -> int {
        x + self.xs * y
    }

    /// The cell at a coordinate.
    pub open spec fn at(self, x: int, y: int) -> SquareState {
        self.cells[self.idx(x, y)]
    }

    /// The board after placing `state` into cell `i`.
    pub open spec fn place(self, i: int, state: SquareState) -> BoardView {
        BoardView { cells: self.cells.update(i, state), filled: self.filled + 1, ..self }
    }
}

pub broadcast proof fn lemma_count_filled_bounds(s: Seq<SquareState>)
    ensures
        0 <= #[trigger] count_filled(s) <= s.len(),
    decreases s.len(),
{
    if s.len() > 0 {
        lemma_count_filled_bounds(s.drop_last());
    }
}

pub proof fn lemma_count_filled_push(s: Seq<SquareState>, v: SquareState)
    ensures
        count_filled(s.push(v)) == count_filled(s) + if v is Filled {
            1int
        } else {
            0int
        },
{
    assert(s.push(v).drop_last() =~= s);
    assert(s.push(v).last() == v);
}

pub proof fn lemma_count_filled_update(s: Seq<SquareState>, i: int, v: SquareState)
    requires
        0 <= i < s.len(),
    ensures
        count_filled(s.update(i, v)) == count_filled(s) - (if s[i] is Filled {
            1int
        } else {
            0int
        }) + (if v is Filled {
            1int
        } else {
            0int
        }),
    decreases s.len(),
{
    let t = s.update(i, v);
    if i == s.len() - 1 {
        assert(t.drop_last() =~= s.drop_last());
    } else {
        assert(t.drop_last() =~= s.drop_last().update(i, v));
        assert(t.last() == s.last());
        lemma_count_filled_update(s.drop_last(), i, v);
    }
}

/// The filled count reaches the length exactly when every cell is filled.
pub proof fn lemma_count_filled_full(s: Seq<SquareState>)
    ensures
        count_filled(s) == s.len() <==> (forall|i: int|
            0 <= i < s.len() ==> s[i] is Filled),
    decreases s.len(),
{
    if s.len() > 0 {
        lemma_count_filled_full(s.drop_last());
        lemma_count_filled_bounds(s.drop_last());
        if count_filled(s) == s.len() {
            assert forall|i: int| 0 <= i < s.len() implies s[i] is Filled by {
                if i < s.len() - 1 {
                    assert(s.drop_last()[i] == s[i]);
                } else {
                    assert(s[i] == s.last());
                }
            }
        }
        if forall|i: int| 0 <= i < s.len() ==> s[i] is Filled {
            assert forall|i: int| 0 <= i < s.drop_last().len() implies s.drop_last()[i]
                is Filled by {
                assert(s.drop_last()[i] == s[i]);
            }
            assert(s.last() is Filled);
        }
    }
}

/// Horizontal step of axis `a` (0 row, 1 column, 2 falling diagonal,
/// 3 rising diagonal).
pub open spec fn axis_dx(a: int) -> int {
    if a == 1 {
        0
    } else {
        1
    }
}

/// Vertical step of axis `a`.
pub open spec fn axis_dy(a: int) -> int {
    if a == 0 {
        0
    } else if a == 3 {
        -1
    } else {
        1
    }
}

/// Length of the contiguous run of `state` cells starting one step after
/// (cx, cy) in direction (dx, dy), following at most `fuel` steps.
pub open spec fn strict_run(
    b: BoardView,
    cx: int,
    cy: int,
    dx: int,
    dy: int,
    state: SquareState,
    fuel: int,
) -> int
    decreases fuel,
{
    if fuel <= 0 {
        0
    } else {
        let nx = cx + dx;
        let ny = cy + dy;
        if b.in_bounds(nx, ny) && b.cells[b.idx(nx, ny)] == state {
            1 + strict_run(b, nx, ny, dx, dy, state, fuel - 1)
        } else {
            0
        }
    }
}

/// Length of the contiguous stretch of cells that are `state` or empty,
/// starting one step after (cx, cy) in direction (dx, dy), following at
/// most `fuel` steps.
pub open spec fn stretch_span(
    b: BoardView,
    cx: int,
    cy: int,
    dx: int,
    dy: int,
    state: SquareState,
    fuel: int,
) -> int
    decreases fuel,
{
    if fuel <= 0 {
        0
    } else {
        let nx = cx + dx;
        let ny = cy + dy;
        if b.in_bounds(nx, ny) && (b.cells[b.idx(nx, ny)] == state || b.cells[b.idx(nx, ny)]
            == SquareState::Empty) {
            1 + stretch_span(b, nx, ny, dx, dy, state, fuel - 1)
        } else {
            0
        }
    }
}

/// Number of `state` cells inside the stretch measured by `stretch_span`.
pub open spec fn stretch_hits(
    b: BoardView,
    cx: int,
    cy: int,
    dx: int,
    dy: int,
    state: SquareState,
    fuel: int,
) -> int
    decreases fuel,
{
    if fuel <= 0 {
        0
    } else {
        let nx = cx + dx;
        let ny = cy + dy;
        if b.in_bounds(nx, ny) && (b.cells[b.idx(nx, ny)] == state || b.cells[b.idx(nx, ny)]
            == SquareState::Empty) {
            (if b.cells[b.idx(nx, ny)] == state {
                1int
            } else {
                0int
            }) + stretch_hits(b, nx, ny, dx, dy, state, fuel - 1)
        } else {
            0
        }
    }
}

/// Strict contiguous run of `state` cells through (x, y) along axis `a`,
/// the cell (x, y) itself counted, each direction capped at `k - 1` steps.
pub open spec fn axis_run(b: BoardView, x: int, y: int, a: int, state: SquareState) -> int {
    1 + strict_run(b, x, y, axis_dx(a), axis_dy(a), state, b.k - 1) + strict_run(
        b,
        x,
        y,
        -axis_dx(a),
        -axis_dy(a),
        state,
        b.k - 1,
    )
}

/// Length of the stretch of `state`-or-empty cells through (x, y) along
/// axis `a`, the cell (x, y) itself counted.
pub open spec fn axis_span(b: BoardView, x: int, y: int, a: int, state: SquareState) -> int {
    1 + stretch_span(b, x, y, axis_dx(a), axis_dy(a), state, b.k - 1) + stretch_span(
        b,
        x,
        y,
        -axis_dx(a),
        -axis_dy(a),
        state,
        b.k - 1,
    )
}

/// Number of `state` cells in the stretch through (x, y) along axis `a`,
/// the cell (x, y) itself counted blindly as one.
pub open spec fn axis_hits(b: BoardView, x: int, y: int, a: int, state: SquareState) -> int {
    1 + stretch_hits(b, x, y, axis_dx(a), axis_dy(a), state, b.k - 1) + stretch_hits(
        b,
        x,
        y,
        -axis_dx(a),
        -axis_dy(a),
        state,
        b.k - 1,
    )
}

/// Whether the cell just placed at (x, y) completes a run of length at
/// least `k` along one of the four axes.
pub open spec fn wins_at(b: BoardView, x: int, y: int, state: SquareState) -> bool {
    exists|a: int| 0 <= a < 4 && axis_run(b, x, y, a, state) >= b.k
}

/// The status of the game right after `state` was placed at (x, y):
/// a win beats a draw, and a draw needs every cell filled.
pub open spec fn status_after(b: BoardView, x: int, y: int, state: SquareState) -> TurnState {
    if wins_at(b, x, y, state) {
        TurnState::Victory
    } else if b.filled == b.size() {
        TurnState::Draw
    } else {
        TurnState::Continue
    }
}

pub proof fn lemma_strict_run_bounds(
    b: BoardView,
    cx: int,
    cy: int,
    dx: int,
    dy: int,
    state: SquareState,
    fuel: int,
)
    ensures
        0 <= strict_run(b, cx, cy, dx, dy, state, fuel),
        fuel >= 0 ==> strict_run(b, cx, cy, dx, dy, state, fuel) <= fuel,
        fuel < 0 ==> strict_run(b, cx, cy, dx, dy, state, fuel) == 0,
    decreases fuel,
{
    if fuel > 0 {
        lemma_strict_run_bounds(b, cx + dx, cy + dy, dx, dy, state, fuel - 1);
    }
}

pub proof fn lemma_stretch_bounds(
    b: BoardView,
    cx: int,
    cy: int,
    dx: int,
    dy: int,
    state: SquareState,
    fuel: int,
)
    ensures
        0 <= stretch_hits(b, cx, cy, dx, dy, state, fuel),
        stretch_hits(b, cx, cy, dx, dy, state, fuel) <= stretch_span(b, cx, cy, dx, dy, state, fuel),
        fuel >= 0 ==> stretch_span(b, cx, cy, dx, dy, state, fuel) <= fuel,
        fuel < 0 ==> stretch_span(b, cx, cy, dx, dy, state, fuel) == 0,
    decreases fuel,
{
    if fuel > 0 {
        lemma_stretch_bounds(b, cx + dx, cy + dy, dx, dy, state, fuel - 1);
    }
}

/// The cell `off` steps along direction (dx, dy) from (cx, cy) is on the
/// board and holds `state`.
pub open spec fn dir_cell_matches(
    b: BoardView,
    cx: int,
    cy: int,
    dx: int,
    dy: int,
    off: int,
    state: SquareState,
) -> bool {
    b.in_bounds(cx + off * dx, cy + off * dy) && b.cells[b.idx(cx + off * dx, cy + off * dy)]
        == state
}

pub proof fn lemma_strict_run_covers(
    b: BoardView,
    cx: int,
    cy: int,
    dx: int,
    dy: int,
    state: SquareState,
    fuel: int,
    m: int,
)
    requires
        0 <= m <= fuel,
        forall|s: int| 1 <= s <= m ==> #[trigger] dir_cell_matches(b, cx, cy, dx, dy, s, state),
    ensures
        strict_run(b, cx, cy, dx, dy, state, fuel) >= m,
    decreases m,
{
    lemma_strict_run_bounds(b, cx, cy, dx, dy, state, fuel);
    if m >= 1 {
        assert(cx + 1 * dx == cx + dx && cy + 1 * dy == cy + dy) by (nonlinear_arith);
        assert(dir_cell_matches(b, cx, cy, dx, dy, 1, state));
        let nx = cx + dx;
        let ny = cy + dy;
        assert forall|s: int| 1 <= s <= m - 1 implies #[trigger] dir_cell_matches(
            b,
            nx,
            ny,
            dx,
            dy,
            s,
            state,
        ) by {
            assert(dir_cell_matches(b, cx, cy, dx, dy, s + 1, state));
            assert((s + 1) * dx == s * dx + dx) by (nonlinear_arith);
            assert((s + 1) * dy == s * dy + dy) by (nonlinear_arith);
        }
        lemma_strict_run_covers(b, nx, ny, dx, dy, state, fuel - 1, m - 1);
    }
}

/// Win detection finds a completed line: if the cells at offsets
/// `-j .. k - 1 - j` from (x, y) along axis `a` all hold `state` — a full
/// run of `k` contiguous cells through (x, y) — then the status after
/// placing `state` at (x, y) is a victory.
pub proof fn lemma_k_in_a_row_wins(
    b: BoardView,
    x: int,
    y: int,
    a: int,
    state: SquareState,
    j: int,
)
    requires
        b.wf(),
        0 <= a < 4,
        0 <= j < b.k,
        forall|t: int|
            0 <= t < b.k ==> #[trigger] dir_cell_matches(
                b,
                x,
                y,
                axis_dx(a),
                axis_dy(a),
                t - j,
                state,
            ),
    ensures
        axis_run(b, x, y, a, state) >= b.k,
        wins_at(b, x, y, state),
        status_after(b, x, y, state) == TurnState::Victory,
{
    let dx = axis_dx(a);
    let dy = axis_dy(a);
    // forward direction covers offsets 1 ..= k - 1 - j
    assert forall|s: int| 1 <= s <= b.k - 1 - j implies #[trigger] dir_cell_matches(
        b,
        x,
        y,
        dx,
        dy,
        s,
        state,
    ) by {
        assert(dir_cell_matches(b, x, y, dx, dy, (s + j) - j, state));
    }
    lemma_strict_run_covers(b, x, y, dx, dy, state, b.k - 1, b.k - 1 - j);
    // backward direction covers offsets -1 ..= -j
    assert forall|s: int| 1 <= s <= j implies #[trigger] dir_cell_matches(
        b,
        x,
        y,
        -dx,
        -dy,
        s,
        state,
    ) by {
        assert(dir_cell_matches(b, x, y, dx, dy, (j - s) - j, state));
        assert(x + s * (-dx) == x + (-s) * dx) by (nonlinear_arith);
        assert(y + s * (-dy) == y + (-s) * dy) by (nonlinear_arith);
    }
    lemma_strict_run_covers(b, x, y, -dx, -dy, state, b.k - 1, j);
    assert(axis_run(b, x, y, a, state) >= b.k);
}

/// The board itself: dimensions, the row-major cells, the run length that
/// wins, the symbol shown for empty cells, and the filled-cell count.
#[derive(Clone)]
pub struct TicTacToe {
    pub x_size: usize,
    pub y_size: usize,
    pub squares: Vec<SquareState>,
    pub seq_to_win: usize,
    pub empty_space_symbol: char,
    pub filled: usize,
}

impl View for TicTacToe {
    type V = BoardView;

    open spec fn view(&self) -> BoardView {
        BoardView {
            xs: self.x_size as int,
            ys: self.y_size as int,
            k: self.seq_to_win as int,
            cells: self.squares@,
            filled: self.filled as int,
        }
    }
}

fn empty_squares(n: usize) -> (v: Vec<SquareState>)
    ensures
        v@.len() == n,
        forall|i: int| 0 <= i < n ==> v@[i] == SquareState::Empty,
        count_filled(v@) == 0,
{
    let mut v: Vec<SquareState> = Vec::new();
    while v.len() < n
        invariant
            v@.len() <= n,
            forall|i: int| 0 <= i < v@.len() ==> v@[i] == SquareState::Empty,
            count_filled(v@) == 0,
        decreases n - v@.len(),
    {
        proof {
            lemma_count_filled_push(v@, SquareState::Empty);
        }
        v.push(SquareState::Empty);
    }
    v
}

impl TicTacToe {
    pub open spec fn wf(&self) -> bool {
        self@.wf()
    }

    pub fn new(x_size: usize, y_size: usize, seq_to_win: usize, empty_space_symbol: char) -> (t:
        TicTacToe)
        requires
            1 <= x_size,
            1 <= y_size,
            x_size * y_size <= usize::MAX,
            1 <= seq_to_win <= MAX_SEQ_TO_WIN,
        ensures
            t.wf(),
            t@.xs == x_size,
            t@.ys == y_size,
            t@.k == seq_to_win,
            t@.filled == 0,
            forall|i: int| 0 <= i < t@.size() ==> t@.cells[i] == SquareState::Empty,
            t.empty_space_symbol == empty_space_symbol,
    {
        let n = x_size * y_size;
        TicTacToe {
            x_size,
            y_size,
            squares: empty_squares(n),
            seq_to_win,
            empty_space_symbol,
            filled: 0,
        }
    }

    /// Number of cells on the board.
    pub fn size(&self) -> (r: usize)
        requires
            self.wf(),
        ensures
            r == self@.size(),
    {
        self.x_size * self.y_size
    }

    /// The cell at a coordinate, or `None` when it is off the board.
    pub fn get_square(&self, x: usize, y: usize) -> (r: Option<SquareState>)
        requires
            self.wf(),
        ensures
            self@.in_bounds(x as int, y as int) ==> r == Some(self@.at(x as int, y as int)),
            !self@.in_bounds(x as int, y as int) ==> r is None,
    {
        if x >= self.x_size || y >= self.y_size {
            return None;
        }
        let i = self.get_coord_index(x, y);
        Some(self.squares[i])
    }

    /// The cell at a flat index, or `None` when the index is out of range.
    pub fn get_square_by_index(&self, index: usize) -> (r: Option<SquareState>)
        requires
            self.wf(),
        ensures
            index < self@.size() ==> r == Some(self@.cells[index as int]),
            index >= self@.size() ==> r is None,
    {
        if index < self.squares.len() {
            Some(self.squares[index])
        } else {
            None
        }
    }

    /// Row-major flat index of a coordinate.
    pub fn get_coord_index(&self, x: usize, y: usize) -> (r: usize)
        requires
            self.wf(),
            x < self.x_size,
            y < self.y_size,
        ensures
            r == self@.idx(x as int, y as int),
            r < self@.size(),
    {
        proof {
            lemma_coord_index_round_trip(self@, x as int, y as int);
        }
        x + self.x_size * y
    }

    /// Coordinate of a row-major flat index.
    pub fn get_index_coord(&self, i: usize) -> (r: (usize, usize))
        requires
            self.wf(),
        ensures
            r.0 == i as int % self@.xs,
            r.1 == i as int / self@.xs,
            i < self@.size() ==> self@.in_bounds(r.0 as int, r.1 as int) && self@.idx(
                r.0 as int,
                r.1 as int,
            ) == i,
    {
        proof {
            if i < self@.size() {
                lemma_index_coord_round_trip(self@, i as int);
            }
        }
        let x = i % self.x_size;
        let y = i / self.x_size;
        (x, y)
    }

    /// Scans outward from (x, y) in direction (dx, dy), at most
    /// `seq_to_win - 1` steps.  In strict mode `r.0` is the contiguous run
    /// of `state` cells and `r.1` equals it; otherwise `r.0` counts the
    /// `state` cells and `r.1` the length of the contiguous stretch of
    /// `state`-or-empty cells.
    fn scan_direction(&self, x: usize, y: usize, dx: i64, dy: i64, state: SquareState, strict: bool) -> (r: (usize, usize))
        requires
            self.wf(),
            x < self.x_size,
            y < self.y_size,
            -1 <= dx <= 1,
            -1 <= dy <= 1,
        ensures
            strict ==> r.0 == strict_run(self@, x as int, y as int, dx as int, dy as int, state, self@.k - 1)
                && r.1 == r.0,
            !strict ==> r.0 == stretch_hits(self@, x as int, y as int, dx as int, dy as int, state, self@.k - 1)
                && r.1 == stretch_span(self@, x as int, y as int, dx as int, dy as int, state, self@.k - 1),
    {
        let ghost b = self@;
        let ghost dxi = dx as int;
        let ghost dyi = dy as int;
        let mut hits: usize = 0;
        let mut span: usize = 0;
        let mut cx = x;
        let mut cy = y;
        let mut s: usize = 1;
        let mut stop = false;
        while s < self.seq_to_win && !stop
            invariant
                self.wf(),
                b == self@,
                dxi == dx as int,
                dyi == dy as int,
                -1 <= dxi <= 1,
                -1 <= dyi <= 1,
                1 <= s <= b.k,
                span == s - 1,
                hits <= span,
                !stop ==> b.in_bounds(cx as int, cy as int),
                !stop && strict ==> hits == span,
                !stop && strict ==> strict_run(b, x as int, y as int, dxi, dyi, state, b.k - 1)
                    == hits + strict_run(b, cx as int, cy as int, dxi, dyi, state, b.k - s),
                !stop && !strict ==> stretch_hits(b, x as int, y as int, dxi, dyi, state, b.k - 1)
                    == hits + stretch_hits(b, cx as int, cy as int, dxi, dyi, state, b.k - s),
                !stop && !strict ==> stretch_span(b, x as int, y as int, dxi, dyi, state, b.k - 1)
                    == span + stretch_span(b, cx as int, cy as int, dxi, dyi, state, b.k - s),
                stop && strict ==> strict_run(b, x as int, y as int, dxi, dyi, state, b.k - 1) == hits,
                stop && !strict ==> stretch_hits(b, x as int, y as int, dxi, dyi, state, b.k - 1) == hits
                    && stretch_span(b, x as int, y as int, dxi, dyi, state, b.k - 1) == span,
            decreases b.k - s, (if stop { 0int } else { 1int }),
        {
            let ox: Option<usize> = if dx == 1 {
                if cx + 1 < self.x_size {
                    Some(cx + 1)
                } else {
                    None
                }
            } else if dx == -1 {
                if cx >= 1 {
                    Some(cx - 1)
                } else {
                    None
                }
            } else {
                Some(cx)
            };
            let oy: Option<usize> = if dy == 1 {
                if cy + 1 < self.y_size {
                    Some(cy + 1)
                } else {
                    None
                }
            } else if dy == -1 {
                if cy >= 1 {
                    Some(cy - 1)
                } else {
                    None
                }
            } else {
                Some(cy)
            };
            match (ox, oy) {
                (Some(nx), Some(ny)) => {
                    proof {
                        assert(nx as int == cx as int + dxi && ny as int == cy as int + dyi);
                        assert(b.in_bounds(nx as int, ny as int));
                        lemma_coord_index_round_trip(b, nx as int, ny as int);
                    }
                    let i = self.get_coord_index(nx, ny);
                    let cell = self.squares[i];
                    if strict {
                        if cell == state {
                            hits = hits + 1;
                            span = span + 1;
                            cx = nx;
                            cy = ny;
                            s = s + 1;
                        } else {
                            stop = true;
                        }
                    } else {
                        if cell == state {
                            hits = hits + 1;
                            span = span + 1;
                            cx = nx;
                            cy = ny;
                            s = s + 1;
                        } else if cell == SquareState::Empty {
                            span = span + 1;
                            cx = nx;
                            cy = ny;
                            s = s + 1;
                        } else {
                            stop = true;
                        }
                    }
                }
                _ => {
                    proof {
                        assert(!b.in_bounds(cx as int + dxi, cy as int + dyi));
                    }
                    stop = true;
                }
            }
        }
        proof {
            if !stop {
                assert(s == b.k);
            }
        }
        if strict {
            (hits, hits)
        } else {
            (hits, span)
        }
    }

    /// Both directions of axis `a` through (x, y) combined, the cell
    /// (x, y) itself counted as one.  In strict mode `r.0` is the
    /// contiguous run; otherwise `r.0` counts the `state` cells in the
    /// stretch and `r.1` the stretch length.
    fn axis_scan(&self, x: usize, y: usize, a: usize, state: SquareState, strict: bool) -> (r: (usize, usize))
        requires
            self.wf(),
            x < self.x_size,
            y < self.y_size,
            a < 4,
        ensures
            strict ==> r.0 == axis_run(self@, x as int, y as int, a as int, state),
            !strict ==> r.0 == axis_hits(self@, x as int, y as int, a as int, state)
                && r.1 == axis_span(self@, x as int, y as int, a as int, state),
            r.0 >= 1,
            r.1 >= 1,
            r.0 <= 2 * self@.k - 1,
            r.1 <= 2 * self@.k - 1,
    {
        let (dx, dy): (i64, i64) = if a == 0 {
            (1, 0)
        } else if a == 1 {
            (0, 1)
        } else if a == 2 {
            (1, 1)
        } else {
            (1, -1)
        };
        proof {
            assert(dx as int == axis_dx(a as int) && dy as int == axis_dy(a as int));
            lemma_strict_run_bounds(self@, x as int, y as int, dx as int, dy as int, state, self@.k - 1);
            lemma_strict_run_bounds(self@, x as int, y as int, -dx as int, -dy as int, state, self@.k - 1);
            lemma_stretch_bounds(self@, x as int, y as int, dx as int, dy as int, state, self@.k - 1);
            lemma_stretch_bounds(self@, x as int, y as int, -dx as int, -dy as int, state, self@.k - 1);
        }
        let pos = self.scan_direction(x, y, dx, dy, state, strict);
        let neg = self.scan_direction(x, y, -dx, -dy, state, strict);
        (1 + pos.0 + neg.0, 1 + pos.1 + neg.1)
    }

    /// Scan along the row through (x, y).  Strict mode returns the
    /// contiguous run of `state` cells; otherwise the count of `state`
    /// cells in the stretch, or the stretch length itself when
    /// `return_available_spaces` is set.
    pub fn check_x(&self, x: usize, y: usize, state: SquareState, stop_counting: bool, return_available_spaces: bool) -> (r: usize)
        requires
            self.wf(),
            x < self.x_size,
            y < self.y_size,
        ensures
            stop_counting ==> r == axis_run(self@, x as int, y as int, 0, state),
            !stop_counting && !return_available_spaces ==> r == axis_hits(self@, x as int, y as int, 0, state),
            !stop_counting && return_available_spaces ==> r == axis_span(self@, x as int, y as int, 0, state),
    {
        let r = self.axis_scan(x, y, 0, state, stop_counting);
        if !stop_counting && return_available_spaces {
            r.1
        } else {
            r.0
        }
    }

    /// Scan along the column through (x, y); modes as in `check_x`.
    pub fn check_y(&self, x: usize, y: usize, state: SquareState, stop_counting: bool, return_available_spaces: bool) -> (r: usize)
        requires
            self.wf(),
            x < self.x_size,
            y < self.y_size,
        ensures
            stop_counting ==> r == axis_run(self@, x as int, y as int, 1, state),
            !stop_counting && !return_available_spaces ==> r == axis_hits(self@, x as int, y as int, 1, state),
            !stop_counting && return_available_spaces ==> r == axis_span(self@, x as int, y as int, 1, state),
    {
        let r = self.axis_scan(x, y, 1, state, stop_counting);
        if !stop_counting && return_available_spaces {
            r.1
        } else {
            r.0
        }
    }

    /// Scan along the falling diagonal through (x, y); modes as in
    /// `check_x`.
    pub fn check_left_diag(&self, x: usize, y: usize, state: SquareState, stop_counting: bool, return_available_spaces: bool) -> (r: usize)
        requires
            self.wf(),
            x < self.x_size,
            y < self.y_size,
        ensures
            stop_counting ==> r == axis_run(self@, x as int, y as int, 2, state),
            !stop_counting && !return_available_spaces ==> r == axis_hits(self@, x as int, y as int, 2, state),
            !stop_counting && return_available_spaces ==> r == axis_span(self@, x as int, y as int, 2, state),
    {
        let r = self.axis_scan(x, y, 2, state, stop_counting);
        if !stop_counting && return_available_spaces {
            r.1
        } else {
            r.0
        }
    }

    /// Scan along the rising diagonal through (x, y); modes as in
    /// `check_x`.
    pub fn check_right_diag(&self, x: usize, y: usize, state: SquareState, stop_counting: bool, return_available_spaces: bool) -> (r: usize)
        requires
            self.wf(),
            x < self.x_size,
            y < self.y_size,
        ensures
            stop_counting ==> r == axis_run(self@, x as int, y as int, 3, state),
            !stop_counting && !return_available_spaces ==> r == axis_hits(self@, x as int, y as int, 3, state),
            !stop_counting && return_available_spaces ==> r == axis_span(self@, x as int, y as int, 3, state),
    {
        let r = self.axis_scan(x, y, 3, state, stop_counting);
        if !stop_counting && return_available_spaces {
            r.1
        } else {
            r.0
        }
    }

    /// The status of the game right after `state` was placed at (x, y):
    /// a victory exactly when some axis through (x, y) carries a strict
    /// contiguous run of at least `seq_to_win` cells, otherwise a draw
    /// exactly when the board is full.
    pub fn check_game_over(&self, x: usize, y: usize, state: SquareState) -> (r: TurnState)
        requires
            self.wf(),
            x < self.x_size,
            y < self.y_size,
        ensures
            r == status_after(self@, x as int, y as int, state),
    {
        let win = self.check_x(x, y, state, true, false) >= self.seq_to_win
            || self.check_y(x, y, state, true, false) >= self.seq_to_win
            || self.check_left_diag(x, y, state, true, false) >= self.seq_to_win
            || self.check_right_diag(x, y, state, true, false) >= self.seq_to_win;
        if win {
            proof {
                assert(wins_at(self@, x as int, y as int, state));
            }
            TurnState::Victory
        } else {
            proof {
                assert forall|a: int| 0 <= a < 4 implies !(axis_run(
                    self@,
                    x as int,
                    y as int,
                    a,
                    state,
                ) >= self@.k) by {
                    assert(a == 0 || a == 1 || a == 2 || a == 3);
                }
                assert(!wins_at(self@, x as int, y as int, state));
            }
            if self.check_draw() {
                TurnState::Draw
            } else {
                TurnState::Continue
            }
        }
    }

    /// Places `state` at (x, y).  Fails with `Error` and leaves the board
    /// unchanged when the cell is already occupied; otherwise fills the
    /// cell and reports the status of the game after the move.
    pub fn set_square(&mut self, x: usize, y: usize, state: SquareState) -> (r: TurnState)
        requires
            old(self).wf(),
            x < old(self).x_size,
            y < old(self).y_size,
            state is Filled,
        ensures
            final(self).wf(),
            final(self)@.xs == old(self)@.xs,
            final(self)@.ys == old(self)@.ys,
            final(self)@.k == old(self)@.k,
            final(self).empty_space_symbol == old(self).empty_space_symbol,
            old(self)@.at(x as int, y as int) != SquareState::Empty ==> r == TurnState::Error
                && *final(self) == *old(self),
            old(self)@.at(x as int, y as int) == SquareState::Empty ==> final(self)@ == old(
                self,
            )@.place(old(self)@.idx(x as int, y as int), state) && r == status_after(
                final(self)@,
                x as int,
                y as int,
                state,
            ),
    {
        let i = self.get_coord_index(x, y);
        let cur = self.squares[i];
        if cur != SquareState::Empty {
            return TurnState::Error;
        }
        proof {
            lemma_count_filled_update(self@.cells, i as int, state);
            lemma_count_filled_bounds(self@.cells.update(i as int, state));
        }
        self.squares.set(i, state);
        self.filled = self.filled + 1;
        proof {
            assert(self@ =~= old(self)@.place(old(self)@.idx(x as int, y as int), state));
        }
        self.check_game_over(x, y, state)
    }

    /// Places `state` at the cell with flat index `i`; as `set_square`.
    pub fn set_square_from_index(&mut self, i: usize, state: SquareState) -> (r: TurnState)
        requires
            old(self).wf(),
            i < old(self)@.size(),
            state is Filled,
        ensures
            final(self).wf(),
            final(self)@.xs == old(self)@.xs,
            final(self)@.ys == old(self)@.ys,
            final(self)@.k == old(self)@.k,
            final(self).empty_space_symbol == old(self).empty_space_symbol,
            old(self)@.cells[i as int] != SquareState::Empty ==> r == TurnState::Error
                && *final(self) == *old(self),
            old(self)@.cells[i as int] == SquareState::Empty ==> final(self)@ == old(self)@.place(
                i as int,
                state,
            ) && r == status_after(
                final(self)@,
                i as int % old(self)@.xs,
                i as int / old(self)@.xs,
                state,
            ),
    {
        let coord = self.get_index_coord(i);
        self.set_square(coord.0, coord.1, state)
    }

    /// An exact copy of the board.
    pub fn clone_board(&self) -> (r: TicTacToe)
        ensures
            r@ == self@,
            r.empty_space_symbol == self.empty_space_symbol,
            r.x_size == self.x_size,
            r.y_size == self.y_size,
            r.seq_to_win == self.seq_to_win,
            r.filled == self.filled,
    {
        let mut squares: Vec<SquareState> = Vec::new();
        let n = self.squares.len();
        let mut i: usize = 0;
        while i < n
            invariant
                n == self.squares.len(),
                i <= n,
                squares@.len() == i,
                forall|j: int| 0 <= j < i ==> squares@[j] == self.squares@[j],
            decreases n - i,
        {
            squares.push(self.squares[i]);
            i = i + 1;
        }
        let r = TicTacToe {
            x_size: self.x_size,
            y_size: self.y_size,
            squares,
            seq_to_win: self.seq_to_win,
            empty_space_symbol: self.empty_space_symbol,
            filled: self.filled,
        };
        proof {
            assert(r@.cells =~= self@.cells);
            assert(r@ =~= self@);
        }
        r
    }

    /// Whether every cell of the board is filled.
    pub fn check_draw(&self) -> (r: bool)
        requires
            self.wf(),
        ensures
            r <==> self@.filled == self@.size(),
    {
        self.filled == self.squares.len()
    }

    /// Resets every cell to empty.
    pub fn clear(&mut self)
        requires
            old(self).wf(),
        ensures
            final(self).wf(),
            final(self)@.xs == old(self)@.xs,
            final(self)@.ys == old(self)@.ys,
            final(self)@.k == old(self)@.k,
            final(self).empty_space_symbol == old(self).empty_space_symbol,
            final(self)@.filled == 0,
            forall|i: int| 0 <= i < final(self)@.size() ==> final(self)@.cells[i] == SquareState::Empty,
    {
        let n = self.x_size * self.y_size;
        self.squares = empty_squares(n);
        self.filled = 0;
    }
}

/// Mapping a coordinate to its flat index and back returns the coordinate.
pub proof fn lemma_coord_index_round_trip(b: BoardView, x: int, y: int)
    requires
        b.wf(),
        0 <= x < b.xs,
        0 <= y < b.ys,
    ensures
        0 <= b.idx(x, y) < b.size(),
        b.idx(x, y) % b.xs == x,
        b.idx(x, y) / b.xs == y,
{
    vstd::arithmetic::mul::lemma_mul_is_commutative(b.xs, y);
    vstd::arithmetic::div_mod::lemma_fundamental_div_mod_converse(x + b.xs * y, b.xs, y, x);
    assert(x + b.xs * y < b.xs * b.ys) by (nonlinear_arith)
        requires
            0 <= x < b.xs,
            0 <= y < b.ys,
    ;
}

/// Mapping a flat index to its coordinate and back returns the index.
pub proof fn lemma_index_coord_round_trip(b: BoardView, i: int)
    requires
        b.wf(),
        0 <= i < b.size(),
    ensures
        b.in_bounds(i % b.xs, i / b.xs),
        b.idx(i % b.xs, i / b.xs) == i,
{
    vstd::arithmetic::div_mod::lemma_fundamental_div_mod(i, b.xs);
    vstd::arithmetic::div_mod::lemma_mod_division_less_than_divisor(i, b.xs);
    vstd::arithmetic::div_mod::lemma_div_pos_is_pos(i, b.xs);
    if i / b.xs >= b.ys {
        vstd::arithmetic::mul::lemma_mul_inequality(b.ys, i / b.xs, b.xs);
        vstd::arithmetic::mul::lemma_mul_is_commutative(b.ys, b.xs);
        vstd::arithmetic::mul::lemma_mul_is_commutative(i / b.xs, b.xs);
    }
}

impl Default for TicTacToe {
    /// A 3-by-3 board needing 3 in a row, with empty cells shown as a
    /// space.
    fn default() -> (t: TicTacToe)
        ensures
            t.wf(),
            t@.xs == 3,
            t@.ys == 3,
            t@.k == 3,
            t@.filled == 0,
            forall|i: int| 0 <= i < t@.size() ==> t@.cells[i] == SquareState::Empty,
            t.empty_space_symbol == ' ',
    {
        TicTacToe::new(3, 3, 3, ' ')
    }
}

/// 1 when the cell at (x, y) is on the board and holds `state`,
/// otherwise 0.
pub open spec fn cell_is(b: BoardView, x: int, y: int, state: SquareState) -> int {
    if b.in_bounds(x, y) && b.cells[b.idx(x, y)] == state {
        1int
    } else {
        0int
    }
}

/// Number of cells in the 8-neighborhood of (x, y) that are on the board
/// and hold `state`.
pub open spec fn neighbor_count(b: BoardView, x: int, y: int, state: SquareState) -> int {
    cell_is(b, x - 1, y - 1, state) + cell_is(b, x, y - 1, state) + cell_is(b, x + 1, y - 1, state)
        + cell_is(b, x - 1, y, state) + cell_is(b, x + 1, y, state) + cell_is(
        b,
        x - 1,
        y + 1,
        state,
    ) + cell_is(b, x, y + 1, state) + cell_is(b, x + 1, y + 1, state)
}

/// Sum over the four axes of the `state` cells within winnable distance
/// of (x, y), the cell (x, y) itself not counted.
pub open spec fn sum_winnable_hits(b: BoardView, x: int, y: int, state: SquareState) -> int {
    (axis_hits(b, x, y, 0, state) - 1) + (axis_hits(b, x, y, 1, state) - 1) + (axis_hits(
        b,
        x,
        y,
        2,
        state,
    ) - 1) + (axis_hits(b, x, y, 3, state) - 1)
}

/// Largest per-axis count of `state` cells within winnable distance of
/// (x, y), the cell (x, y) itself not counted.
pub open spec fn max_winnable_hits(b: BoardView, x: int, y: int, state: SquareState) -> int {
    let c0 = axis_hits(b, x, y, 0, state) - 1;
    let c1 = axis_hits(b, x, y, 1, state) - 1;
    let c2 = axis_hits(b, x, y, 2, state) - 1;
    let c3 = axis_hits(b, x, y, 3, state) - 1;
    let m01 = if c0 >= c1 {
        c0
    } else {
        c1
    };
    let m012 = if m01 >= c2 {
        m01
    } else {
        c2
    };
    if m012 >= c3 {
        m012
    } else {
        c3
    }
}

/// Number of axes (0 to 4) through (x, y) whose stretch for `state` can
/// still reach length `k`.
pub open spec fn available_axes(b: BoardView, x: int, y: int, state: SquareState) -> int {
    (if axis_span(b, x, y, 0, state) >= b.k {
        1int
    } else {
        0int
    }) + (if axis_span(b, x, y, 1, state) >= b.k {
        1int
    } else {
        0int
    }) + (if axis_span(b, x, y, 2, state) >= b.k {
        1int
    } else {
        0int
    }) + (if axis_span(b, x, y, 3, state) >= b.k {
        1int
    } else {
        0int
    })
}

pub proof fn lemma_axis_bounds(b: BoardView, x: int, y: int, a: int, state: SquareState)
    requires
        b.wf(),
    ensures
        1 <= axis_run(b, x, y, a, state) <= 2 * b.k - 1,
        1 <= axis_hits(b, x, y, a, state) <= axis_span(b, x, y, a, state) <= 2 * b.k - 1,
{
    let dx = axis_dx(a);
    let dy = axis_dy(a);
    lemma_strict_run_bounds(b, x, y, dx, dy, state, b.k - 1);
    lemma_strict_run_bounds(b, x, y, -dx, -dy, state, b.k - 1);
    lemma_stretch_bounds(b, x, y, dx, dy, state, b.k - 1);
    lemma_stretch_bounds(b, x, y, -dx, -dy, state, b.k - 1);
}

/// Derived board queries that feed the move heuristic.
pub trait SpecialBoardChecks {
    /// Whether the board is in the state the contracts below assume.
    spec fn ok(&self) -> bool;

    /// The board model the results are stated over.
    spec fn model(&self) -> BoardView;

    /// Sum — or, when `return_highest` is set, maximum — over the four
    /// axes of the `state` cells within winnable distance of the cell at
    /// `index`, that cell itself not counted.
    fn sum_squares_in_winnable_distance(&self, index: usize, state: SquareState, return_highest: bool) -> (r: i32)
        requires
            self.ok(),
            index < self.model().size(),
        ensures
            !return_highest ==> r == sum_winnable_hits(
                self.model(),
                index as int % self.model().xs,
                index as int / self.model().xs,
                state,
            ),
            return_highest ==> r == max_winnable_hits(
                self.model(),
                index as int % self.model().xs,
                index as int / self.model().xs,
                state,
            ),
    ;

    /// Number of cells holding `state` among the up-to-eight neighbors
    /// of the cell at `index`.
    fn spaces_of_around(&self, index: usize, state: SquareState) -> (r: usize)
        requires
            self.ok(),
            index < self.model().size(),
        ensures
            r == neighbor_count(
                self.model(),
                index as int % self.model().xs,
                index as int / self.model().xs,
                state,
            ),
    ;

    /// Number of axes through the cell at `index` whose stretch for
    /// `state` can still reach the winning length.
    fn check_n_of_available_axis(&self, index: usize, state: SquareState) -> (r: usize)
        requires
            self.ok(),
            index < self.model().size(),
        ensures
            r == available_axes(
                self.model(),
                index as int % self.model().xs,
                index as int / self.model().xs,
                state,
            ),
    ;

    /// Per-axis counts of `op_placed_square` cells within winnable
    /// distance of the cell at `index`.
    fn check_blocked_op_spaces(&self, index: usize, op_placed_square: SquareState) -> (r: [usize; 4])
        requires
            self.ok(),
            index < self.model().size(),
        ensures
            forall|a: int|
                0 <= a < 4 ==> r@[a] == axis_hits(
                    self.model(),
                    index as int % self.model().xs,
                    index as int / self.model().xs,
                    a,
                    op_placed_square,
                ) - 1,
    ;
}

impl SpecialBoardChecks for TicTacToe {
    open spec fn ok(&self) -> bool {
        self.wf()
    }

    open spec fn model(&self) -> BoardView {
        self@
    }

    fn sum_squares_in_winnable_distance(&self, index: usize, state: SquareState, return_highest: bool) -> (r: i32)
    {
        let coord = self.get_index_coord(index);
        proof {
            lemma_axis_bounds(self@, coord.0 as int, coord.1 as int, 0, state);
            lemma_axis_bounds(self@, coord.0 as int, coord.1 as int, 1, state);
            lemma_axis_bounds(self@, coord.0 as int, coord.1 as int, 2, state);
            lemma_axis_bounds(self@, coord.0 as int, coord.1 as int, 3, state);
        }
        let c0 = self.check_x(coord.0, coord.1, state, false, false) - 1;
        let c1 = self.check_y(coord.0, coord.1, state, false, false) - 1;
        let c2 = self.check_left_diag(coord.0, coord.1, state, false, false) - 1;
        let c3 = self.check_right_diag(coord.0, coord.1, state, false, false) - 1;
        if return_highest {
            let mut highest = c0;
            if c1 > highest {
                highest = c1;
            }
            if c2 > highest {
                highest = c2;
            }
            if c3 > highest {
                highest = c3;
            }
            highest as i32
        } else {
            (c0 + c1 + c2 + c3) as i32
        }
    }

    fn spaces_of_around(&self, index: usize, state: SquareState) -> (r: usize)
    {
        let (x, y) = self.get_index_coord(index);
        let mut count: usize = 0;
        if x >= 1 {
            if let Some(sq) = self.get_square(x - 1, y) {
                if sq == state {
                    count = count + 1;
                }
            }
        }
        if let Some(sq) = self.get_square(x + 1, y) {
            if sq == state {
                count = count + 1;
            }
        }
        if y >= 1 {
            if x >= 1 {
                if let Some(sq) = self.get_square(x - 1, y - 1) {
                    if sq == state {
                        count = count + 1;
                    }
                }
            }
            if let Some(sq) = self.get_square(x, y - 1) {
                if sq == state {
                    count = count + 1;
                }
            }
            if let Some(sq) = self.get_square(x + 1, y - 1) {
                if sq == state {
                    count = count + 1;
                }
            }
        }
        if x >= 1 {
            if let Some(sq) = self.get_square(x - 1, y + 1) {
                if sq == state {
                    count = count + 1;
                }
            }
        }
        if let Some(sq) = self.get_square(x, y + 1) {
            if sq == state {
                count = count + 1;
            }
        }
        if let Some(sq) = self.get_square(x + 1, y + 1) {
            if sq == state {
                count = count + 1;
            }
        }
        count
    }

    fn check_n_of_available_axis(&self, index: usize, state: SquareState) -> (r: usize)
    {
        let coord = self.get_index_coord(index);
        let mut axis: usize = 0;
        if self.check_x(coord.0, coord.1, state, false, true) >= self.seq_to_win {
            axis = axis + 1;
        }
        if self.check_y(coord.0, coord.1, state, false, true) >= self.seq_to_win {
            axis = axis + 1;
        }
        if self.check_left_diag(coord.0, coord.1, state, false, true) >= self.seq_to_win {
            axis = axis + 1;
        }
        if self.check_right_diag(coord.0, coord.1, state, false, true) >= self.seq_to_win {
            axis = axis + 1;
        }
        axis
    }

    fn check_blocked_op_spaces(&self, index: usize, op_placed_square: SquareState) -> (r: [usize; 4])
    {
        let coord = self.get_index_coord(index);
        proof {
            lemma_axis_bounds(self@, coord.0 as int, coord.1 as int, 0, op_placed_square);
            lemma_axis_bounds(self@, coord.0 as int, coord.1 as int, 1, op_placed_square);
            lemma_axis_bounds(self@, coord.0 as int, coord.1 as int, 2, op_placed_square);
            lemma_axis_bounds(self@, coord.0 as int, coord.1 as int, 3, op_placed_square);
        }
        let c0 = self.check_x(coord.0, coord.1, op_placed_square, false, false) - 1;
        let c1 = self.check_y(coord.0, coord.1, op_placed_square, false, false) - 1;
        let c2 = self.check_left_diag(coord.0, coord.1, op_placed_square, false, false) - 1;
        let c3 = self.check_right_diag(coord.0, coord.1, op_placed_square, false, false) - 1;
        [c0, c1, c2, c3]
    }
}

/// Placing a symbol into an empty cell keeps the board well-formed.
pub proof fn lemma_place_wf(b: BoardView, i: int, state: SquareState)
    requires
        b.wf(),
        0 <= i < b.size(),
        b.cells[i] == SquareState::Empty,
        state is Filled,
    ensures
        b.place(i, state).wf(),
{
    lemma_count_filled_update(b.cells, i, state);
}

/// A well-formed board that is not full has an empty cell, and a full
/// one has none.
pub proof fn lemma_filled_cells(b: BoardView)
    requires
        b.wf(),
    ensures
        0 <= b.filled <= b.size(),
        b.filled < b.size() ==> exists|i: int| 0 <= i < b.size() && b.cells[i] == SquareState::Empty,
        b.filled == b.size() ==> forall|i: int| 0 <= i < b.size() ==> b.cells[i] is Filled,
{
    lemma_count_filled_bounds(b.cells);
    lemma_count_filled_full(b.cells);
    if b.filled < b.size() {
        assert(!forall|i: int| 0 <= i < b.cells.len() ==> b.cells[i] is Filled);
        let i = choose|i: int| 0 <= i < b.cells.len() && !(b.cells[i] is Filled);
        assert(b.cells[i] == SquareState::Empty);
    }
}

} // verus!
