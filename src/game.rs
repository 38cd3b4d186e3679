use vstd::prelude::*;

use crate::board::{
    cell_at, cell_coordinate, empty_cells, in_bounds, key, lemma_fill_cell, occupied,
    occupied_upto, Board, Cells, N_CELLS,
};
use crate::coordinate::Coordinate;
use crate::error::QuartoError;
use crate::piece::{
    all_possible_pieces, check_match, copy_flags, is_match, lemma_piece_bits_id, lemma_piece_of,
    piece_bits, piece_id, piece_index, piece_of, Piece,
};
use crate::{BOARD_SIZE, N_PIECES, N_PROPERTIES};

verus! {

/// One of the two players.
#[derive(Clone, Copy, Debug, PartialEq, Eq, Hash, Structural)]
pub enum Player {
    Player1,
    Player2,
}

/// What the player to move must do next.
#[derive(Clone, Copy, Debug, PartialEq, Eq, Hash)]
pub enum Stage {
    ChoosingPieceForOpponent,
    PlacingPieceGivenOpponentChoice(Piece),
}

/// Whether the game goes on, and if not, how it ended.
#[derive(Clone, Copy, Debug, PartialEq, Eq, Hash, Structural)]
pub enum GameResult {
    InProgress,
    PlayerWon(Player),
    Draw,
}

/// Whose turn it is, what they must do, and whether the game is over.
#[derive(Clone, Copy, Debug, PartialEq, Eq, Hash)]
pub struct GameState {
    pub player_turn: Player,
    pub stage: Stage,
    pub result: GameResult,
}

/// A game of Quarto: the board, the turn, and which pieces are still to be chosen.
/// `pieces_left[i]` tells whether the piece numbered `i` is still available.
pub struct Game {
    pub board: Board,
    pub game_state: GameState,
    pub pieces_left: Vec<bool>,
}

/// The mathematical content of a game.
pub struct GameView {
    pub cells: Cells,
    pub state: GameState,
    pub left: Seq<bool>,
}

impl View for Game {
    type V = GameView;

    open spec fn view(&self) -> GameView {
        GameView { cells: self.board@, state: self.game_state, left: self.pieces_left@ }
    }
}

/// The player who is not `p`.
pub open spec fn other(p: Player) -> Player {
    match p {
        Player::Player1 => Player::Player2,
        Player::Player2 => Player::Player1,
    }
}

/// The number of available flags among the first `n`.
pub open spec fn count_left(left: Seq<bool>, n: int) -> nat
    decreases n,
{
    if n <= 0 {
        0
    } else if left[n - 1] {
        count_left(left, n - 1) + 1
    } else {
        count_left(left, n - 1)
    }
}

/// The available pieces among the first `n` numbers, in increasing order.
pub open spec fn available_upto(left: Seq<bool>, n: int) -> Seq<Piece>
    decreases n,
{
    if n <= 0 {
        Seq::empty()
    } else if left[n - 1] {
        available_upto(left, n - 1).push(piece_of((n - 1) as nat))
    } else {
        available_upto(left, n - 1)
    }
}

/// All available pieces, in increasing order of their numbers.
pub open spec fn available(left: Seq<bool>) -> Seq<Piece> {
    available_upto(left, N_PIECES as int)
}

/// A line wins when all its slots hold pieces that agree on some attribute.
pub open spec fn line_wins(line: Seq<Option<Piece>>) -> bool {
    &&& forall|i: int| 0 <= i < line.len() ==> #[trigger] line[i] is Some
    &&& is_match(line.map_values(|x: Option<Piece>| x->Some_0))
}

/// The slots of a row, left to right.
pub open spec fn row_line(cells: Cells, row: int) -> Seq<Option<Piece>> {
    Seq::new(BOARD_SIZE as nat, |c: int| cell_at(cells, row, c))
}

/// The slots of a column, top to bottom.
pub open spec fn column_line(cells: Cells, column: int) -> Seq<Option<Piece>> {
    Seq::new(BOARD_SIZE as nat, |r: int| cell_at(cells, r, column))
}

/// The slots of the main diagonal, top left to bottom right.
pub open spec fn diagonal_line(cells: Cells) -> Seq<Option<Piece>> {
    Seq::new(BOARD_SIZE as nat, |n: int| cell_at(cells, n, n))
}

/// The slots of the anti-diagonal, top right to bottom left.
pub open spec fn anti_diagonal_line(cells: Cells) -> Seq<Option<Piece>> {
    Seq::new(BOARD_SIZE as nat, |n: int| cell_at(cells, n, BOARD_SIZE - 1 - n))
}

/// Some line through `c` wins.
pub open spec fn wins_at(cells: Cells, c: Coordinate) -> bool {
    ||| line_wins(row_line(cells, c.row as int))
    ||| line_wins(column_line(cells, c.column as int))
    ||| (c.row == c.column && line_wins(diagonal_line(cells)))
    ||| (c.row + c.column == BOARD_SIZE - 1 && line_wins(anti_diagonal_line(cells)))
}

/// Some cell holds the piece numbered `i`.
pub open spec fn on_board(cells: Cells, i: int) -> bool {
    exists|c: Coordinate|
        in_bounds(c) && #[trigger] cells[key(c)] is Some && piece_id(cells[key(c)]->Some_0) == i
}

impl GameView {
    /// The game is still being played.
    pub open spec fn in_progress(self) -> bool {
        self.state.result is InProgress
    }

    /// The piece that the player to move must place, if any.
    pub open spec fn piece_in_hand(self) -> Piece {
        self.state.stage->PlacingPieceGivenOpponentChoice_0
    }

    /// A piece has been chosen and waits to be placed.
    pub open spec fn holds_piece(self) -> bool {
        self.in_progress() && self.state.stage is PlacingPieceGivenOpponentChoice
    }

    /// The piece numbered `i` has been chosen and waits to be placed.
    pub open spec fn in_hand(self, i: int) -> bool {
        self.holds_piece() && piece_id(self.piece_in_hand()) == i
    }

    /// The number of available pieces.
    pub open spec fn n_left(self) -> nat {
        count_left(self.left, N_PIECES as int)
    }

    /// Whether `p` is available to be chosen.
    pub open spec fn has_piece(self, p: Piece) -> bool {
        self.left[piece_id(p) as int]
    }

    /// Every piece is in exactly one place: available, on the board, or in hand.
    pub open spec fn wf(self) -> bool {
        &&& crate::grid::is_square_grid(self.cells)
        &&& self.left.len() == N_PIECES
        &&& self.n_left() + occupied(self.cells) + (if self.holds_piece() {
            1nat
        } else {
            0nat
        }) == N_PIECES
        &&& forall|i: int|
            0 <= i < N_PIECES ==> (#[trigger] self.left[i] <==> (!on_board(self.cells, i)
                && !self.in_hand(i)))
        &&& (self.in_progress() && self.state.stage is ChoosingPieceForOpponent) ==> self.n_left() > 0
        &&& !self.in_progress() ==> self.state.stage is PlacingPieceGivenOpponentChoice
    }

    /// `p` may be chosen now.
    pub open spec fn can_choose(self, p: Piece) -> bool {
        self.has_piece(p) && self.state.stage is ChoosingPieceForOpponent
    }

    /// The piece in hand may be placed at `c` now.
    pub open spec fn can_put(self, c: Coordinate) -> bool {
        self.holds_piece() && in_bounds(c) && self.cells[key(c)] is None
    }

    /// The game after `p` is chosen for the opponent.
    pub open spec fn after_choose(self, p: Piece) -> GameView {
        GameView {
            cells: self.cells,
            state: GameState {
                player_turn: other(self.state.player_turn),
                stage: Stage::PlacingPieceGivenOpponentChoice(p),
                result: self.state.result,
            },
            left: self.left.update(piece_id(p) as int, false),
        }
    }

    /// The game after the piece in hand is placed at `c`: a draw once no piece is
    /// left, a win for the placer when a line through `c` matches, else the placer
    /// chooses next.
    pub open spec fn after_put(self, c: Coordinate) -> GameView {
        let cells = self.cells.insert(key(c), Some(self.piece_in_hand()));
        let result = if self.n_left() == 0 {
            GameResult::Draw
        } else if wins_at(cells, c) {
            GameResult::PlayerWon(self.state.player_turn)
        } else {
            GameResult::InProgress
        };
        let stage = if result is InProgress {
            Stage::ChoosingPieceForOpponent
        } else {
            self.state.stage
        };
        GameView {
            cells,
            state: GameState { player_turn: self.state.player_turn, stage, result },
            left: self.left,
        }
    }

    /// Twice the number of empty cells, plus one while a piece is to be chosen: each
    /// legal action lowers it.
    pub open spec fn measure(self) -> nat {
        2 * empty_cells(self.cells).len() + (if self.state.stage is ChoosingPieceForOpponent {
            1nat
        } else {
            0nat
        })
    }
}

/// Marking one available flag as taken lowers the count by one.
pub proof fn lemma_count_take(left: Seq<bool>, i: int, n: int)
    requires
        0 <= i < left.len(),
        0 <= n <= left.len(),
        left[i],
    ensures
        count_left(left.update(i, false), n) + (if i < n {
            1nat
        } else {
            0nat
        }) == count_left(left, n),
    decreases n,
{
    if n > 0 {
        lemma_count_take(left, i, n - 1);
    }
}

/// The available pieces are listed once each, in increasing order of their numbers,
/// and every available piece among the first `n` is listed.
pub proof fn lemma_available(left: Seq<bool>, n: int)
    requires
        0 <= n <= N_PIECES,
        n <= left.len(),
    ensures
        available_upto(left, n).len() == count_left(left, n),
        forall|k: int|
            0 <= k < available_upto(left, n).len() ==> left[piece_id(
                #[trigger] available_upto(left, n)[k],
            ) as int] && piece_id(available_upto(left, n)[k]) < n,
        forall|k: int, l: int|
            0 <= k < l < available_upto(left, n).len() ==> piece_id(
                #[trigger] available_upto(left, n)[k],
            ) < piece_id(#[trigger] available_upto(left, n)[l]),
        forall|i: int| 0 <= i < n && left[i] ==> available_upto(left, n).contains(piece_of(i as nat)),
    decreases n,
{
    if n > 0 {
        lemma_available(left, n - 1);
        lemma_piece_of(piece_of(0), (n - 1) as nat);
        let prev = available_upto(left, n - 1);
        let cur = available_upto(left, n);
        assert forall|i: int| 0 <= i < n && left[i] implies cur.contains(piece_of(i as nat)) by {
            if i < n - 1 {
                let k = choose|k: int| 0 <= k < prev.len() && prev[k] == piece_of(i as nat);
                assert(cur[k] == prev[k]);
            } else {
                assert(cur[cur.len() - 1] == piece_of(i as nat));
            }
        }
    }
}

impl Game {
    /// A fresh game: empty board, every piece available, the first player choosing.
    pub fn new() -> (r: Game)
        ensures
            r@.wf(),
            forall|c: Coordinate| in_bounds(c) ==> #[trigger] r.board.cell(c) is None,
            r.game_state == (GameState {
                player_turn: Player::Player1,
                stage: Stage::ChoosingPieceForOpponent,
                result: GameResult::InProgress,
            }),
            forall|p: Piece| #[trigger] r@.has_piece(p),
            r@.left == Seq::new(N_PIECES as nat, |i: int| true),
    {
        let mut pieces: Vec<bool> = Vec::new();
        let mut i: usize = 0;
        while i < N_PIECES
            invariant
                i <= N_PIECES,
                pieces@ == Seq::new(i as nat, |k: int| false),
            decreases N_PIECES - i,
        {
            pieces.push(false);
            i += 1;
            assert(pieces@ =~= Seq::new(i as nat, |k: int| false));
        }
        let all = all_possible_pieces(N_PROPERTIES);
        proof {
            vstd::arithmetic::power2::lemma2_to64();
        }
        let mut j: usize = 0;
        while j < all.len()
            invariant
                all@.len() == N_PIECES,
                forall|k: int| 0 <= k < all@.len() ==> (#[trigger] all@[k])@ == piece_bits(k as nat, N_PROPERTIES as nat),
                j <= all@.len(),
                pieces@.len() == N_PIECES,
                forall|k: int| 0 <= k < N_PIECES ==> (#[trigger] pieces@[k] <==> k < j),
            decreases all.len() - j,
        {
            let bits = &all[j];
            proof {
                lemma_piece_bits_id(j as nat);
            }
            let piece: Piece = [bits[0], bits[1], bits[2], bits[3]];
            let index = piece_index(&piece);
            assert(index == j);
            pieces.set(index, true);
            j += 1;
        }
        let board = Board::new();
        let r = Game {
            board,
            game_state: GameState {
                player_turn: Player::Player1,
                stage: Stage::ChoosingPieceForOpponent,
                result: GameResult::InProgress,
            },
            pieces_left: pieces,
        };
        proof {
            assert(r@.left =~= Seq::new(N_PIECES as nat, |i: int| true));
            reveal_with_fuel(count_left, 17);
            reveal_with_fuel(occupied_upto, 17);
            assert forall|n: int| 0 <= n < 16 implies r.board.cell(#[trigger] cell_coordinate(n)) is None by {
                assert(in_bounds(cell_coordinate(n)));
            }
            assert(occupied(r@.cells) == 0);
            assert forall|i: int| 0 <= i < N_PIECES implies (#[trigger] r@.left[i] <==> (!on_board(r@.cells, i)
                && !r@.in_hand(i))) by {
                if on_board(r@.cells, i) {
                    let c = choose|c: Coordinate|
                        in_bounds(c) && #[trigger] r@.cells[key(c)] is Some && piece_id(r@.cells[key(c)]->Some_0) == i;
                    assert(r.board.cell(c) is None);
                }
            }
            assert forall|p: Piece| #[trigger] r@.has_piece(p) by {
                lemma_piece_of(p, 0);
            }
        }
        r
    }

    /// A copy of the game.
    pub fn clone_game(&self) -> (r: Game)
        ensures
            r@ == self@,
    {
        Game {
            board: self.board.clone_board(),
            game_state: self.game_state,
            pieces_left: copy_flags(&self.pieces_left),
        }
    }
}


/// Whether a line of BOARD_SIZE slots is full and its pieces share an attribute.
fn full_line_matches(line: Vec<Option<Piece>>) -> (r: bool)
    requires
        line.len() == BOARD_SIZE,
    ensures
        r == line_wins(line@),
{
    let mut items: Vec<Piece> = Vec::new();
    let mut i: usize = 0;
    while i < line.len()
        invariant
            line.len() == BOARD_SIZE,
            i <= line.len(),
            items.len() <= i,
            (forall|j: int| 0 <= j < i ==> #[trigger] line@[j] is Some) ==> items@ =~= line@.take(
                i as int,
            ).map_values(|x: Option<Piece>| x->Some_0),
            !(forall|j: int| 0 <= j < i ==> #[trigger] line@[j] is Some) ==> items.len() < i,
        decreases line.len() - i,
    {
        match line[i] {
            Some(piece) => {
                items.push(piece);
            },
            None => {},
        }
        i += 1;
        assert(line@.take(i as int).drop_last() =~= line@.take(i as int - 1));
    }
    assert(line@.take(line@.len() as int) =~= line@);
    if items.len() == BOARD_SIZE {
        check_match(items)
    } else {
        false
    }
}

impl Game {
    /// Whether row `row` is full and its pieces share an attribute.
    pub fn check_row_match(&self, row: usize) -> (r: bool)
        requires
            self.board.wf(),
            row < BOARD_SIZE,
        ensures
            r == line_wins(row_line(self@.cells, row as int)),
    {
        let line = self.board.get_row(row).unwrap();
        assert(line@ =~= row_line(self@.cells, row as int));
        full_line_matches(line)
    }

    /// Whether column `column` is full and its pieces share an attribute.
    pub fn check_column_match(&self, column: usize) -> (r: bool)
        requires
            self.board.wf(),
            column < BOARD_SIZE,
        ensures
            r == line_wins(column_line(self@.cells, column as int)),
    {
        let line = self.board.get_column(column).unwrap();
        assert(line@ =~= column_line(self@.cells, column as int));
        full_line_matches(line)
    }

    /// Whether the main diagonal is full and its pieces share an attribute.
    pub fn check_backward_slash_diagonal(&self) -> (r: bool)
        requires
            self.board.wf(),
        ensures
            r == line_wins(diagonal_line(self@.cells)),
    {
        let line = self.board.get_diagonal();
        assert(line@ =~= diagonal_line(self@.cells));
        full_line_matches(line)
    }

    /// Whether the anti-diagonal is full and its pieces share an attribute.
    pub fn check_forward_slash_diagonal(&self) -> (r: bool)
        requires
            self.board.wf(),
        ensures
            r == line_wins(anti_diagonal_line(self@.cells)),
    {
        let mut line: Vec<Option<Piece>> = Vec::new();
        let mut n: usize = 0;
        while n < BOARD_SIZE
            invariant
                self.board.wf(),
                n <= BOARD_SIZE,
                line@ =~= anti_diagonal_line(self@.cells).take(n as int),
            decreases BOARD_SIZE - n,
        {
            let value = self.board.get(Coordinate { row: n, column: BOARD_SIZE - n - 1 });
            line.push(value.unwrap());
            n += 1;
        }
        assert(line@ =~= anti_diagonal_line(self@.cells));
        full_line_matches(line)
    }

    /// Whether a line through `position` wins.
    pub fn check_if_won(&self, position: Coordinate) -> (r: bool)
        requires
            self.board.wf(),
            in_bounds(position),
        ensures
            r == wins_at(self@.cells, position),
    {
        if self.check_row_match(position.row) {
            return true;
        }
        if self.check_column_match(position.column) {
            return true;
        }
        if position.row == position.column && self.check_backward_slash_diagonal() {
            return true;
        }
        if position.row + position.column == BOARD_SIZE - 1 && self.check_forward_slash_diagonal() {
            return true;
        }
        false
    }

    /// The available pieces, in increasing order of their numbers.
    pub fn get_pieces_left(&self) -> (r: Vec<Piece>)
        requires
            self@.wf(),
        ensures
            r@ == available(self@.left),
    {
        let mut pieces: Vec<Piece> = Vec::new();
        let mut i: usize = 0;
        while i < N_PIECES
            invariant
                self@.wf(),
                i <= N_PIECES,
                pieces@ == available_upto(self@.left, i as int),
            decreases N_PIECES - i,
        {
            if self.pieces_left[i] {
                pieces.push(crate::piece::piece_from_index(i));
            }
            i += 1;
        }
        pieces
    }

    /// The empty cells, in row-major order.
    pub fn get_empty_places(&self) -> (r: Vec<Coordinate>)
        requires
            self@.wf(),
        ensures
            r@ == empty_cells(self@.cells),
    {
        self.board.empty_spaces()
    }
}


/// Choosing an available piece keeps the game well formed and lowers its measure by one.
pub proof fn lemma_choose_wf(v: GameView, p: Piece)
    requires
        v.wf(),
        v.can_choose(p),
    ensures
        v.after_choose(p).wf(),
        v.after_choose(p).measure() + 1 == v.measure(),
{
    let w = v.after_choose(p);
    lemma_piece_of(p, 0);
    lemma_count_take(v.left, piece_id(p) as int, N_PIECES as int);
    assert forall|i: int| 0 <= i < N_PIECES implies (#[trigger] w.left[i] <==> (!on_board(w.cells, i)
        && !w.in_hand(i))) by {
        if i != piece_id(p) {
            assert(v.left[i] <==> (!on_board(v.cells, i) && !v.in_hand(i)));
        }
    }
}

/// Placing the piece in hand on an empty cell keeps the game well formed and lowers
/// its measure: by one when the game goes on.
pub proof fn lemma_put_wf(v: GameView, c: Coordinate)
    requires
        v.wf(),
        v.can_put(c),
    ensures
        v.after_put(c).wf(),
        v.after_put(c).measure() < v.measure(),
        v.after_put(c).in_progress() ==> v.after_put(c).measure() + 1 == v.measure(),
{
    let w = v.after_put(c);
    let p = v.piece_in_hand();
    lemma_fill_cell(v.cells, c, p, N_CELLS as int);
    assert forall|k: (usize, usize)| #[trigger] w.cells.dom().contains(k) <==> (k.0 < BOARD_SIZE
        && k.1 < BOARD_SIZE) by {
        assert(v.cells.dom().contains(k) <==> (k.0 < BOARD_SIZE && k.1 < BOARD_SIZE));
    }
    assert forall|i: int| 0 <= i < N_PIECES implies (#[trigger] w.left[i] <==> (!on_board(w.cells, i)
        && !w.in_hand(i))) by {
        assert(v.left[i] <==> (!on_board(v.cells, i) && !v.in_hand(i)));
        if i == piece_id(p) {
            assert(w.cells[key(c)] is Some);
        } else {
            if on_board(w.cells, i) {
                let d = choose|d: Coordinate|
                    in_bounds(d) && #[trigger] w.cells[key(d)] is Some && piece_id(w.cells[key(d)]->Some_0) == i;
                assert(key(d) != key(c));
                assert(v.cells[key(d)] is Some);
            }
            if on_board(v.cells, i) {
                let d = choose|d: Coordinate|
                    in_bounds(d) && #[trigger] v.cells[key(d)] is Some && piece_id(v.cells[key(d)]->Some_0) == i;
                assert(key(d) != key(c));
                assert(w.cells[key(d)] is Some);
            }
        }
    }
}

impl Game {
    /// Whether no piece is left to choose.
    fn no_pieces_left(&self) -> (r: bool)
        requires
            self.pieces_left.len() == N_PIECES,
        ensures
            r == (self@.n_left() == 0),
    {
        let mut i: usize = 0;
        while i < N_PIECES
            invariant
                self.pieces_left.len() == N_PIECES,
                i <= N_PIECES,
                count_left(self@.left, i as int) == 0,
            decreases N_PIECES - i,
        {
            if self.pieces_left[i] {
                proof {
                    lemma_count_monotone(self@.left, i as int + 1, N_PIECES as int);
                }
                return false;
            }
            i += 1;
        }
        true
    }

    /// Hands `piece` to the opponent: it leaves the available pieces, must be placed
    /// next, and the turn passes.
    pub fn choose_piece(&mut self, piece: Piece) -> (r: Result<(), QuartoError>)
        requires
            old(self)@.wf(),
        ensures
            final(self)@.wf(),
            !old(self)@.has_piece(piece) ==> r == Err::<(), QuartoError>(QuartoError::PieceUnavailable),
            old(self)@.has_piece(piece) && old(self).game_state.stage is PlacingPieceGivenOpponentChoice
                ==> r == Err::<(), QuartoError>(QuartoError::WrongStage),
            old(self)@.can_choose(piece) ==> r is Ok && final(self)@ == old(self)@.after_choose(piece),
            r is Ok ==> final(self).game_state.player_turn == other(old(self).game_state.player_turn),
            r is Err ==> final(self)@ == old(self)@,
    {
        let index = piece_index(&piece);
        if !self.pieces_left[index] {
            return Err(QuartoError::PieceUnavailable);
        }
        match self.game_state.stage {
            Stage::PlacingPieceGivenOpponentChoice(_) => Err(QuartoError::WrongStage),
            Stage::ChoosingPieceForOpponent => {
                proof {
                    lemma_choose_wf(self@, piece);
                }
                self.pieces_left.set(index, false);
                self.game_state.stage = Stage::PlacingPieceGivenOpponentChoice(piece);
                self.game_state.player_turn = match self.game_state.player_turn {
                    Player::Player1 => Player::Player2,
                    Player::Player2 => Player::Player1,
                };
                Ok(())
            },
        }
    }

    /// Places the piece in hand at `position`. The game then ends in a draw when no
    /// piece is left, or in a win for the placer when a line through `position`
    /// matches; otherwise the placer chooses next, and the turn does not pass.
    pub fn put(&mut self, position: Coordinate) -> (r: Result<(), QuartoError>)
        requires
            old(self)@.wf(),
        ensures
            final(self)@.wf(),
            !old(self)@.in_progress() ==> r == Err::<(), QuartoError>(
                QuartoError::GameOver(old(self).game_state.result),
            ),
            old(self)@.in_progress() && old(self).game_state.stage is ChoosingPieceForOpponent ==> r
                == Err::<(), QuartoError>(QuartoError::WrongStage),
            old(self)@.holds_piece() && !in_bounds(position) ==> r == Err::<(), QuartoError>(
                QuartoError::OutOfBounds,
            ),
            old(self)@.holds_piece() && in_bounds(position) && old(self).board.cell(position) is Some
                ==> r == Err::<(), QuartoError>(
                QuartoError::Occupied(old(self).board.cell(position)->Some_0),
            ),
            old(self)@.can_put(position) ==> r is Ok && final(self)@ == old(self)@.after_put(position),
            r is Ok ==> final(self).game_state.player_turn == old(self).game_state.player_turn,
            r is Err ==> final(self)@ == old(self)@,
    {
        match self.game_state.result {
            GameResult::Draw => Err(QuartoError::GameOver(GameResult::Draw)),
            GameResult::PlayerWon(player) => Err(QuartoError::GameOver(GameResult::PlayerWon(player))),
            GameResult::InProgress => match self.game_state.stage {
                Stage::ChoosingPieceForOpponent => Err(QuartoError::WrongStage),
                Stage::PlacingPieceGivenOpponentChoice(piece) => {
                    let ghost before = self@;
                    match self.board.put(piece, position) {
                        Err(e) => {
                            return Err(e);
                        },
                        Ok(()) => {},
                    }
                    proof {
                        lemma_put_wf(before, position);
                    }
                    if self.no_pieces_left() {
                        self.game_state.result = GameResult::Draw;
                    } else if self.check_if_won(position) {
                        self.game_state.result = GameResult::PlayerWon(self.game_state.player_turn);
                    } else {
                        self.game_state.stage = Stage::ChoosingPieceForOpponent;
                    }
                    Ok(())
                },
            },
        }
    }
}

/// Counting over a longer prefix never counts fewer.
pub proof fn lemma_count_monotone(left: Seq<bool>, m: int, n: int)
    requires
        0 <= m <= n,
    ensures
        count_left(left, m) <= count_left(left, n),
    decreases n - m,
{
    if m < n {
        lemma_count_monotone(left, m, n - 1);
    }
}

} // verus!
