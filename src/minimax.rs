use vstd::prelude::*;

use std::collections::HashMap;

use vstd::arithmetic::div_mod::lemma_fundamental_div_mod_converse;

use crate::board::{cell_coordinate, empty_cells, in_bounds, key, lemma_empty_occupied, Cells, N_CELLS};
use crate::coordinate::Coordinate;
use crate::game::{
    available, lemma_available, lemma_choose_wf, lemma_put_wf, Game, GameResult, GameState,
    GameView, Player, Stage,
};
use crate::piece::{lemma_piece_of, piece_id, piece_index, Piece};
use crate::{BOARD_SIZE, N_PIECES};

verus! {

broadcast use vstd::std_specs::hash::group_hash_axioms;

/// One action of the mover: choose a piece for the opponent, or place the piece in hand.
#[derive(Clone, Copy, Debug, PartialEq, Eq)]
pub enum QuartoAction {
    Choose(Piece),
    Put(Coordinate),
}

/// The action may be taken in `v`.
pub open spec fn legal(v: GameView, a: QuartoAction) -> bool {
    match a {
        QuartoAction::Choose(p) => v.can_choose(p),
        QuartoAction::Put(c) => v.can_put(c),
    }
}

/// The game after action `a`.
pub open spec fn apply(v: GameView, a: QuartoAction) -> GameView {
    match a {
        QuartoAction::Choose(p) => v.after_choose(p),
        QuartoAction::Put(c) => v.after_put(c),
    }
}

/// The actions open to the mover: one per available piece while choosing, one per
/// empty cell while placing, in the order of `available` and `empty_cells`.
pub open spec fn actions_of(v: GameView) -> Seq<QuartoAction> {
    match v.state.stage {
        Stage::ChoosingPieceForOpponent => available(v.left).map_values(
            |p: Piece| QuartoAction::Choose(p),
        ),
        Stage::PlacingPieceGivenOpponentChoice(_) => empty_cells(v.cells).map_values(
            |c: Coordinate| QuartoAction::Put(c),
        ),
    }
}

/// The score of a finished game for the first player: 1 for a win, -1 for a loss, 0 for
/// a draw.
pub open spec fn utility_of(result: GameResult) -> int {
    match result {
        GameResult::PlayerWon(Player::Player1) => 1,
        GameResult::PlayerWon(Player::Player2) => -1,
        _ => 0,
    }
}

/// The value before any action is weighed: the lowest `i32` for the first player, who
/// maximises, the highest for the second, who minimises.
pub open spec fn initial_best(v: GameView) -> int {
    if v.state.player_turn is Player1 {
        i32::MIN as int
    } else {
        i32::MAX as int
    }
}

/// The minimax value of `v`, looking at most `d` actions ahead: the utility of a
/// finished game, else the best value of the actions for the player to move.
pub open spec fn value_at(v: GameView, d: nat) -> int
    decreases d, 1nat, 0int,
{
    if !v.in_progress() {
        utility_of(v.state.result)
    } else if d == 0 {
        0
    } else {
        best_upto(v, actions_of(v), actions_of(v).len() as int, (d - 1) as nat)
    }
}

/// The best value, for the player to move in `v`, of the first `k` actions of `acts`,
/// each game after an action valued `d` actions ahead.
pub open spec fn best_upto(v: GameView, acts: Seq<QuartoAction>, k: int, d: nat) -> int
    decreases d + 1, 0nat, k,
{
    if k <= 0 {
        initial_best(v)
    } else {
        let prev = best_upto(v, acts, k - 1, d);
        let x = value_at(apply(v, acts[k - 1]), d);
        if v.state.player_turn is Player1 {
            if x > prev {
                x
            } else {
                prev
            }
        } else {
            if x < prev {
                x
            } else {
                prev
            }
        }
    }
}

/// The game-theoretic value of `v` for the first player.
pub open spec fn game_value(v: GameView) -> int {
    value_at(v, v.measure())
}

/// Number of codes of one slot: empty, or one of the pieces.
pub const SLOT_CODES: u128 = 17;

/// Number of codes of a turn state: two players, seventeen stages, four results.
pub const STATE_CODES: u128 = 136;

/// The code of a slot: 0 when empty, one more than the piece's number otherwise.
pub open spec fn slot_code(s: Option<Piece>) -> nat {
    match s {
        None => 0,
        Some(p) => piece_id(p) + 1,
    }
}

/// The codes of the cells, in row-major order.
pub open spec fn cell_codes(cells: Cells) -> Seq<nat> {
    Seq::new(N_CELLS as nat, |i: int| slot_code(cells[key(cell_coordinate(i))]))
}

/// The number whose base-SLOT_CODES digits, most significant first, are `s`.
pub open spec fn digits_value(s: Seq<nat>) -> nat
    decreases s.len(),
{
    if s.len() == 0 {
        0
    } else {
        digits_value(s.drop_last()) * SLOT_CODES as nat + s.last()
    }
}

/// The code of a turn state.
pub open spec fn state_code(st: GameState) -> nat {
    let player: nat = if st.player_turn is Player1 {
        0
    } else {
        1
    };
    let stage: nat = match st.stage {
        Stage::ChoosingPieceForOpponent => 0,
        Stage::PlacingPieceGivenOpponentChoice(p) => piece_id(p) + 1,
    };
    let result: nat = match st.result {
        GameResult::InProgress => 0,
        GameResult::PlayerWon(Player::Player1) => 1,
        GameResult::PlayerWon(Player::Player2) => 2,
        GameResult::Draw => 3,
    };
    player + 2 * stage + 34 * result
}

/// The key under which the value of `v` is stored: the board and the turn state.
pub open spec fn game_key(v: GameView) -> u128 {
    (digits_value(cell_codes(v.cells)) * STATE_CODES as nat + state_code(v.state)) as u128
}

/// SLOT_CODES to the power `n`.
pub open spec fn slot_power(n: nat) -> nat
    decreases n,
{
    if n == 0 {
        1
    } else {
        slot_power((n - 1) as nat) * SLOT_CODES as nat
    }
}

/// Digits below SLOT_CODES make a number below SLOT_CODES to the number of digits.
pub proof fn lemma_digits_bound(s: Seq<nat>)
    requires
        forall|i: int| 0 <= i < s.len() ==> #[trigger] s[i] < SLOT_CODES,
    ensures
        digits_value(s) < slot_power(s.len()),
    decreases s.len(),
{
    if s.len() > 0 {
        let t = s.drop_last();
        lemma_digits_bound(t);
        let a = digits_value(t);
        let b = slot_power(t.len());
        let d = s.last();
        assert(a * 17 + d < b * 17) by (nonlinear_arith)
            requires
                a < b,
                d < 17,
        ;
    }
}

/// The key of a game.
pub fn state_key(state: &Game) -> (r: u128)
    requires
        state@.wf(),
    ensures
        r == game_key(state@),
{
    let ghost codes = cell_codes(state@.cells);
    let mut acc: u128 = 0;
    let mut i: usize = 0;
    while i < N_CELLS
        invariant
            state@.wf(),
            codes == cell_codes(state@.cells),
            i <= N_CELLS,
            acc == digits_value(codes.take(i as int)),
            acc < slot_power(i as nat),
        decreases N_CELLS - i,
    {
        let slot = state.board.get(Coordinate { row: i / BOARD_SIZE, column: i % BOARD_SIZE }).unwrap();
        let code: u128 = match slot {
            None => 0,
            Some(p) => piece_index(&p) as u128 + 1,
        };
        proof {
            assert(in_bounds(cell_coordinate(i as int)));
            lemma_piece_of(state@.cells[key(cell_coordinate(i as int))]->Some_0, 0);
            assert(code == codes[i as int]);
            assert(codes.take(i as int + 1).drop_last() =~= codes.take(i as int));
            let a = acc as int;
            let b = slot_power(i as nat) as int;
            assert(a * 17 + code < b * 17) by (nonlinear_arith)
                requires
                    a < b,
                    code < 17,
            ;
            reveal_with_fuel(slot_power, 17);
            assert(slot_power(N_CELLS as nat) == 48661191875666868481nat);
            assert(slot_power(i as nat) * 17 <= 48661191875666868481nat) by {
                lemma_slot_power_monotone((i + 1) as nat, N_CELLS as nat);
            }
        }
        acc = acc * SLOT_CODES + code;
        i += 1;
    }
    assert(codes.take(N_CELLS as int) =~= codes);
    proof {
        reveal_with_fuel(slot_power, 17);
    }
    assert(acc < 48661191875666868481u128);
    let (player, stage, result): (u128, u128, u128) = (
        match state.game_state.player_turn {
            Player::Player1 => 0,
            Player::Player2 => 1,
        },
        match state.game_state.stage {
            Stage::ChoosingPieceForOpponent => 0,
            Stage::PlacingPieceGivenOpponentChoice(p) => piece_index(&p) as u128 + 1,
        },
        match state.game_state.result {
            GameResult::InProgress => 0,
            GameResult::PlayerWon(Player::Player1) => 1,
            GameResult::PlayerWon(Player::Player2) => 2,
            GameResult::Draw => 3,
        },
    );
    proof {
        if let Stage::PlacingPieceGivenOpponentChoice(p) = state.game_state.stage {
            lemma_piece_of(p, 0);
        }
    }
    acc * STATE_CODES + (player + 2 * stage + 34 * result)
}

/// Powers of SLOT_CODES grow with the exponent.
pub proof fn lemma_slot_power_monotone(m: nat, n: nat)
    requires
        m <= n,
    ensures
        slot_power(m) <= slot_power(n),
    decreases n - m,
{
    if m < n {
        lemma_slot_power_monotone(m, (n - 1) as nat);
    }
}


/// Every stored value is the game-theoretic value of each well-formed game with that key.
pub open spec fn memo_sound(m: Map<u128, i32>) -> bool {
    forall|v: GameView| v.wf() && m.contains_key(#[trigger] game_key(v)) ==> m[game_key(v)] == game_value(v)
}

/// How a valuation of `v` that returned `r` relates the table before and after: stored
/// values stay; a stored value is returned as it is; a finished game is scored and not
/// stored; any other game gets its value stored; and a sound table stays sound and
/// yields the game-theoretic value.
pub open spec fn lookup_or_store(before: Map<u128, i32>, after: Map<u128, i32>, v: GameView, r: i32) -> bool {
    let k = game_key(v);
    &&& forall|kk: u128| #[trigger] before.contains_key(kk) ==> after.contains_key(kk) && after[kk] == before[kk]
    &&& before.contains_key(k) ==> r == before[k] && after == before
    &&& !before.contains_key(k) && !v.in_progress() ==> r == utility_of(v.state.result) && after == before
    &&& !before.contains_key(k) && v.in_progress() ==> after.contains_key(k) && after[k] == r
    &&& memo_sound(before) ==> memo_sound(after) && r == game_value(v) && -1 <= r <= 1
}

/// Valuing the same game twice in a row returns the same value both times, and the
/// second valuation is a pure lookup: it leaves the table as the first one left it.
pub proof fn law_valuation_idempotent(
    m0: Map<u128, i32>,
    m1: Map<u128, i32>,
    m2: Map<u128, i32>,
    v: GameView,
    first: i32,
    second: i32,
)
    requires
        lookup_or_store(m0, m1, v, first),
        lookup_or_store(m1, m2, v, second),
    ensures
        second == first,
        m2 == m1,
{
}

/// In a game that goes on, there is at least one action, each of them legal.
pub proof fn lemma_actions_legal(v: GameView)
    requires
        v.wf(),
        v.in_progress(),
    ensures
        actions_of(v).len() > 0,
        v.measure() >= 1,
        forall|j: int| 0 <= j < actions_of(v).len() ==> legal(v, #[trigger] actions_of(v)[j]),
{
    lemma_empty_occupied(v.cells, N_CELLS as int);
    lemma_available(v.left, N_PIECES as int);
    let acts = actions_of(v);
    if v.state.stage is ChoosingPieceForOpponent {
        assert forall|j: int| 0 <= j < acts.len() implies legal(v, #[trigger] acts[j]) by {
            assert(acts[j] == QuartoAction::Choose(available(v.left)[j]));
        }
    } else {
        assert forall|j: int| 0 <= j < acts.len() implies legal(v, #[trigger] acts[j]) by {
            assert(acts[j] == QuartoAction::Put(empty_cells(v.cells)[j]));
        }
    }
}

/// A legal action leads to a well-formed game of lower measure: one lower when the
/// game goes on.
pub proof fn lemma_child(v: GameView, a: QuartoAction)
    requires
        v.wf(),
        legal(v, a),
    ensures
        apply(v, a).wf(),
        apply(v, a).measure() < v.measure(),
        apply(v, a).in_progress() ==> apply(v, a).measure() + 1 == v.measure(),
{
    match a {
        QuartoAction::Choose(p) => lemma_choose_wf(v, p),
        QuartoAction::Put(c) => lemma_put_wf(v, c),
    }
}

/// The value of a well-formed game is -1, 0 or 1.
pub proof fn lemma_value_range(v: GameView, d: nat)
    requires
        v.wf(),
    ensures
        -1 <= value_at(v, d) <= 1,
    decreases d, 1nat, 0int,
{
    if v.in_progress() && d > 0 {
        lemma_actions_legal(v);
        lemma_best_range(v, actions_of(v).len() as int, (d - 1) as nat);
    }
}

/// The best value over a non-empty prefix of the actions is -1, 0 or 1.
pub proof fn lemma_best_range(v: GameView, k: int, d: nat)
    requires
        v.wf(),
        v.in_progress(),
        1 <= k <= actions_of(v).len(),
    ensures
        -1 <= best_upto(v, actions_of(v), k, d) <= 1,
    decreases d + 1, 0nat, k,
{
    let acts = actions_of(v);
    lemma_actions_legal(v);
    assert(legal(v, acts[k - 1]));
    lemma_child(v, acts[k - 1]);
    lemma_value_range(apply(v, acts[k - 1]), d);
    if k > 1 {
        lemma_best_range(v, k - 1, d);
    }
    assert(k == 1 ==> best_upto(v, acts, k - 1, d) == initial_best(v));
}

/// Once the best value reaches the bound of the player to move (1 for the first, -1
/// for the second), the remaining actions cannot change it.
pub proof fn lemma_best_saturates(v: GameView, i: int, n: int, d: nat)
    requires
        v.wf(),
        v.in_progress(),
        1 <= i <= n <= actions_of(v).len(),
        best_upto(v, actions_of(v), i, d) == (if v.state.player_turn is Player1 {
            1int
        } else {
            -1int
        }),
    ensures
        best_upto(v, actions_of(v), n, d) == best_upto(v, actions_of(v), i, d),
    decreases n - i,
{
    if i < n {
        let acts = actions_of(v);
        lemma_best_saturates(v, i, n - 1, d);
        lemma_actions_legal(v);
        assert(legal(v, acts[n - 1]));
        lemma_child(v, acts[n - 1]);
        lemma_value_range(apply(v, acts[n - 1]), d);
    }
}

/// Equal digit sequences of equal length give equal numbers, and only they.
pub proof fn lemma_digits_injective(s: Seq<nat>, t: Seq<nat>)
    requires
        s.len() == t.len(),
        forall|i: int| 0 <= i < s.len() ==> #[trigger] s[i] < SLOT_CODES,
        forall|i: int| 0 <= i < t.len() ==> #[trigger] t[i] < SLOT_CODES,
        digits_value(s) == digits_value(t),
    ensures
        s == t,
    decreases s.len(),
{
    if s.len() > 0 {
        let x = digits_value(s) as int;
        lemma_fundamental_div_mod_converse(x, 17, digits_value(s.drop_last()) as int, s.last() as int);
        lemma_fundamental_div_mod_converse(x, 17, digits_value(t.drop_last()) as int, t.last() as int);
        lemma_digits_injective(s.drop_last(), t.drop_last());
        assert(s =~= s.drop_last().push(s.last()));
        assert(t =~= t.drop_last().push(t.last()));
    } else {
        assert(s =~= t);
    }
}

/// Well-formed games with the same key are the same game.
pub proof fn lemma_key_injective(v: GameView, w: GameView)
    requires
        v.wf(),
        w.wf(),
        game_key(v) == game_key(w),
    ensures
        v == w,
{
    let cv = cell_codes(v.cells);
    let cw = cell_codes(w.cells);
    assert forall|i: int| 0 <= i < cv.len() implies #[trigger] cv[i] < SLOT_CODES by {
        if let Some(p) = v.cells[key(cell_coordinate(i))] {
            lemma_piece_of(p, 0);
        }
    }
    assert forall|i: int| 0 <= i < cw.len() implies #[trigger] cw[i] < SLOT_CODES by {
        if let Some(p) = w.cells[key(cell_coordinate(i))] {
            lemma_piece_of(p, 0);
        }
    }
    lemma_digits_bound(cv);
    lemma_digits_bound(cw);
    reveal_with_fuel(slot_power, 17);
    if let Stage::PlacingPieceGivenOpponentChoice(p) = v.state.stage {
        lemma_piece_of(p, 0);
    }
    if let Stage::PlacingPieceGivenOpponentChoice(p) = w.state.stage {
        lemma_piece_of(p, 0);
    }
    let sv = state_code(v.state) as int;
    let sw = state_code(w.state) as int;
    let x = digits_value(cv) * 136 + sv;
    lemma_fundamental_div_mod_converse(x, 136, digits_value(cv) as int, sv);
    lemma_fundamental_div_mod_converse(x, 136, digits_value(cw) as int, sw);
    lemma_digits_injective(cv, cw);
    // the turn state
    let pv: int = if v.state.player_turn is Player1 { 0 } else { 1 };
    let pw: int = if w.state.player_turn is Player1 { 0 } else { 1 };
    lemma_fundamental_div_mod_converse(sv, 2, (sv - pv) / 2, pv);
    lemma_fundamental_div_mod_converse(sw, 2, (sw - pw) / 2, pw);
    let qv = (sv - pv) / 2;
    let qw = (sw - pw) / 2;
    let stv: int = match v.state.stage {
        Stage::ChoosingPieceForOpponent => 0,
        Stage::PlacingPieceGivenOpponentChoice(p) => piece_id(p) as int + 1,
    };
    let stw: int = match w.state.stage {
        Stage::ChoosingPieceForOpponent => 0,
        Stage::PlacingPieceGivenOpponentChoice(p) => piece_id(p) as int + 1,
    };
    lemma_fundamental_div_mod_converse(qv, 17, (qv - stv) / 17, stv);
    lemma_fundamental_div_mod_converse(qw, 17, (qw - stw) / 17, stw);
    if let Stage::PlacingPieceGivenOpponentChoice(p) = v.state.stage {
        if let Stage::PlacingPieceGivenOpponentChoice(q) = w.state.stage {
            lemma_piece_of(p, 0);
            lemma_piece_of(q, 0);
        }
    }
    assert(v.state == w.state);
    // the cells
    assert forall|k: (usize, usize)| #[trigger] v.cells.dom().contains(k) implies v.cells[k] == w.cells[k] by {
        let i = k.0 * 4 + k.1;
        assert(key(cell_coordinate(i)) == k);
        assert(cv[i] == cw[i]);
        if let Some(p) = v.cells[k] {
            if let Some(q) = w.cells[k] {
                lemma_piece_of(p, 0);
                lemma_piece_of(q, 0);
            }
        }
    }
    assert forall|k: (usize, usize)| #[trigger] v.cells.dom().contains(k) <==> w.cells.dom().contains(k) by {
        assert(v.cells.dom().contains(k) <==> (k.0 < BOARD_SIZE && k.1 < BOARD_SIZE));
        assert(w.cells.dom().contains(k) <==> (k.0 < BOARD_SIZE && k.1 < BOARD_SIZE));
    }
    assert(v.cells =~= w.cells);
    // the available pieces follow from the cells and the turn state
    assert forall|i: int| 0 <= i < v.left.len() implies v.left[i] == w.left[i] by {
        assert(v.left[i] <==> (!crate::game::on_board(v.cells, i) && !v.in_hand(i)));
        assert(w.left[i] <==> (!crate::game::on_board(w.cells, i) && !w.in_hand(i)));
    }
    assert(v.left =~= w.left);
}

/// Storing the game-theoretic value of a well-formed game keeps a sound table sound.
pub proof fn lemma_insert_sound(m: Map<u128, i32>, v: GameView, r: i32)
    requires
        memo_sound(m),
        v.wf(),
        r == game_value(v),
    ensures
        memo_sound(m.insert(game_key(v), r)),
{
    let n = m.insert(game_key(v), r);
    assert forall|w: GameView| w.wf() && n.contains_key(#[trigger] game_key(w)) implies n[game_key(w)]
        == game_value(w) by {
        if game_key(w) == game_key(v) {
            lemma_key_injective(w, v);
        }
    }
}

/// The search engine: valuations of games, remembered by key across calls.
pub struct QuartoMinimax {
    pub state_to_value: HashMap<u128, i32>,
}

impl QuartoMinimax {
    /// An engine that starts from the stored valuations `memory`.
    pub fn new(memory: HashMap<u128, i32>) -> (r: QuartoMinimax)
        ensures
            r.state_to_value@ == memory@,
    {
        QuartoMinimax { state_to_value: memory }
    }

    /// The score of a finished game for the first player.
    pub fn utility(&self, state: &Game) -> (r: i32)
        requires
            !state@.in_progress(),
        ensures
            r == utility_of(state.game_state.result),
    {
        match state.game_state.result {
            GameResult::Draw => 0,
            GameResult::PlayerWon(Player::Player1) => 1,
            GameResult::PlayerWon(Player::Player2) => -1,
            // excluded by the precondition
            GameResult::InProgress => 0,
        }
    }

    /// Whether the game is over.
    pub fn terminal(&self, state: &Game) -> (r: bool)
        ensures
            r == !state@.in_progress(),
    {
        match state.game_state.result {
            GameResult::Draw => true,
            GameResult::PlayerWon(_) => true,
            GameResult::InProgress => false,
        }
    }

    /// The actions open to the mover.
    pub fn actions(&self, state: &Game) -> (r: Vec<QuartoAction>)
        requires
            state@.wf(),
        ensures
            r@ == actions_of(state@),
    {
        let mut acts: Vec<QuartoAction> = Vec::new();
        match state.game_state.stage {
            Stage::ChoosingPieceForOpponent => {
                let pieces = state.get_pieces_left();
                let mut i: usize = 0;
                while i < pieces.len()
                    invariant
                        i <= pieces.len(),
                        acts@ =~= pieces@.take(i as int).map_values(|p: Piece| QuartoAction::Choose(p)),
                    decreases pieces.len() - i,
                {
                    acts.push(QuartoAction::Choose(pieces[i]));
                    i += 1;
                }
                assert(pieces@.take(pieces@.len() as int) =~= pieces@);
            },
            Stage::PlacingPieceGivenOpponentChoice(_) => {
                let places = state.get_empty_places();
                let mut i: usize = 0;
                while i < places.len()
                    invariant
                        i <= places.len(),
                        acts@ =~= places@.take(i as int).map_values(|c: Coordinate| QuartoAction::Put(c)),
                    decreases places.len() - i,
                {
                    acts.push(QuartoAction::Put(places[i]));
                    i += 1;
                }
                assert(places@.take(places@.len() as int) =~= places@);
            },
        }
        acts
    }

    /// A copy of `state` with the legal `action` applied.
    pub fn result(&self, state: &Game, action: QuartoAction) -> (r: Game)
        requires
            state@.wf(),
            legal(state@, action),
        ensures
            r@ == apply(state@, action),
            r@.wf(),
            r@.measure() < state@.measure(),
            r@.in_progress() ==> r@.measure() + 1 == state@.measure(),
    {
        proof {
            lemma_child(state@, action);
        }
        let mut new_state = state.clone_game();
        match action {
            QuartoAction::Choose(piece) => {
                new_state.choose_piece(piece).unwrap();
                new_state
            },
            QuartoAction::Put(position) => {
                new_state.put(position).unwrap();
                new_state
            },
        }
    }

    /// The value of a game where the first player moves, for the first player.
    pub fn max_value(&mut self, state: &Game) -> (r: i32)
        requires
            state@.wf(),
            state.game_state.player_turn == Player::Player1,
        ensures
            lookup_or_store(old(self).state_to_value@, final(self).state_to_value@, state@, r),
        decreases state@.measure(), 0nat,
    {
        let k = state_key(state);
        proof {
            lemma_value_range(state@, state@.measure());
        }
        match self.state_to_value.get(&k) {
            Some(value) => {
                return *value;
            },
            None => {},
        }
        if self.terminal(state) {
            return self.utility(state);
        }
        let actions = self.actions(state);
        let ghost m0 = self.state_to_value@;
        let ghost d = (state@.measure() - 1) as nat;
        proof {
            lemma_actions_legal(state@);
        }
        let mut v: i32 = i32::MIN;
        let mut i: usize = 0;
        while i < actions.len()
            invariant
                state@.wf(),
                state@.in_progress(),
                state.game_state.player_turn == Player::Player1,
                actions@ == actions_of(state@),
                actions@.len() > 0,
                state@.measure() >= 1,
                d == state@.measure() - 1,
                forall|j: int| 0 <= j < actions@.len() ==> legal(state@, #[trigger] actions@[j]),
                i <= actions.len(),
                forall|kk: u128| #[trigger] m0.contains_key(kk) ==> self.state_to_value@.contains_key(kk)
                    && self.state_to_value@[kk] == m0[kk],
                memo_sound(m0) ==> memo_sound(self.state_to_value@) && v == best_upto(
                    state@,
                    actions@,
                    i as int,
                    d,
                ),
            ensures
                memo_sound(m0) ==> memo_sound(self.state_to_value@) && v == best_upto(
                    state@,
                    actions@,
                    actions@.len() as int,
                    d,
                ),
            decreases actions.len() - i,
        {
            let action = actions[i];
            let child = self.result(state, action);
            let value = match child.game_state.player_turn {
                Player::Player1 => self.max_value(&child),
                Player::Player2 => self.min_value(&child),
            };
            proof {
                if memo_sound(m0) {
                    assert(value == value_at(child@, d));
                }
            }
            if value > v {
                v = value;
            }
            i += 1;
            if v == 1 {
                proof {
                    if memo_sound(m0) {
                        lemma_best_saturates(state@, i as int, actions@.len() as int, d);
                    }
                }
                break;
            }
        }
        proof {
            if memo_sound(m0) {
                lemma_best_range(state@, actions@.len() as int, d);
            }
        }
        let ghost m1 = self.state_to_value@;
        self.state_to_value.insert(k, v);
        proof {
            if memo_sound(m0) {
                lemma_insert_sound(m1, state@, v);
            }
        }
        v
    }

    /// The value of a game where the second player moves, for the first player.
    pub fn min_value(&mut self, state: &Game) -> (r: i32)
        requires
            state@.wf(),
            state.game_state.player_turn == Player::Player2,
        ensures
            lookup_or_store(old(self).state_to_value@, final(self).state_to_value@, state@, r),
        decreases state@.measure(), 0nat,
    {
        let k = state_key(state);
        proof {
            lemma_value_range(state@, state@.measure());
        }
        match self.state_to_value.get(&k) {
            Some(value) => {
                return *value;
            },
            None => {},
        }
        if self.terminal(state) {
            return self.utility(state);
        }
        let actions = self.actions(state);
        let ghost m0 = self.state_to_value@;
        let ghost d = (state@.measure() - 1) as nat;
        proof {
            lemma_actions_legal(state@);
        }
        let mut v: i32 = i32::MAX;
        let mut i: usize = 0;
        while i < actions.len()
            invariant
                state@.wf(),
                state@.in_progress(),
                state.game_state.player_turn == Player::Player2,
                actions@ == actions_of(state@),
                actions@.len() > 0,
                state@.measure() >= 1,
                d == state@.measure() - 1,
                forall|j: int| 0 <= j < actions@.len() ==> legal(state@, #[trigger] actions@[j]),
                i <= actions.len(),
                forall|kk: u128| #[trigger] m0.contains_key(kk) ==> self.state_to_value@.contains_key(kk)
                    && self.state_to_value@[kk] == m0[kk],
                memo_sound(m0) ==> memo_sound(self.state_to_value@) && v == best_upto(
                    state@,
                    actions@,
                    i as int,
                    d,
                ),
            ensures
                memo_sound(m0) ==> memo_sound(self.state_to_value@) && v == best_upto(
                    state@,
                    actions@,
                    actions@.len() as int,
                    d,
                ),
            decreases actions.len() - i,
        {
            let action = actions[i];
            let child = self.result(state, action);
            let value = match child.game_state.player_turn {
                Player::Player1 => self.max_value(&child),
                Player::Player2 => self.min_value(&child),
            };
            proof {
                if memo_sound(m0) {
                    assert(value == value_at(child@, d));
                }
            }
            if value < v {
                v = value;
            }
            i += 1;
            if v == -1 {
                proof {
                    if memo_sound(m0) {
                        lemma_best_saturates(state@, i as int, actions@.len() as int, d);
                    }
                }
                break;
            }
        }
        proof {
            if memo_sound(m0) {
                lemma_best_range(state@, actions@.len() as int, d);
            }
        }
        let ghost m1 = self.state_to_value@;
        self.state_to_value.insert(k, v);
        proof {
            if memo_sound(m0) {
                lemma_insert_sound(m1, state@, v);
            }
        }
        v
    }
}

} // verus!
