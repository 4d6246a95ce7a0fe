//! A chess rules engine: board state, legal-move generation and
//! disambiguation, game-termination detection, and a compact board
//! serialization, together with a thin game-orchestration layer.
pub mod board;
pub mod laws;
pub mod parser;
pub mod pgn;
pub mod pieces;
pub mod text;
pub mod turn;
pub mod utils;

use vstd::prelude::*;

use crate::board::default::starting_board;
use crate::board::fen::{fen_of, position_key};
use crate::board::model::{
    apply_turn, complete_turn_spec, enforce_flags_spec, gamestate_spec, gen_flags_spec,
    minimum_move_spec, with_flags, BoardView,
};
use crate::board::render::board_render;
use crate::board::{ChessBoard, GameState, TurnError};
use crate::text::{chars_to_string, dec_digits, str_to_chars};
use crate::turn::{notation_spec, Turn};
use crate::utils::{counter_add, Counter};

verus! {

/// Everything one accepted move does to a game: the turn completed and its
/// flags settled, the position counted, the board advanced, and the new
/// game state computed; or the error that rejects the move.
pub open spec fn make_move_outcome(
    bv: BoardView,
    hist: Seq<(Seq<char>, int)>,
    turn: Turn,
    enforce: bool,
) -> Result<(Turn, BoardView, Seq<(Seq<char>, int)>, GameState), TurnError> {
    match complete_turn_spec(bv, turn) {
        Err(e) => Err(e),
        Ok(full0) => {
            if enforce && (enforce_flags_spec(bv, full0) matches Err(_)) {
                Err(enforce_flags_spec(bv, full0)->Err_0)
            } else {
                let full = if enforce {
                    full0
                } else {
                    with_flags(full0, gen_flags_spec(bv, full0))
                };
                let hist2 = counter_add(hist, position_key(bv));
                let bv2 = apply_turn(bv, full);
                Ok((full, bv2, hist2, gamestate_spec(bv2, hist2)))
            }
        },
    }
}

/// The game reached by replaying a list of turns from the starting
/// position with fresh history; a turn that no longer validates stops the
/// replay.
pub open spec fn replay_outcome(turns: Seq<Turn>, enforce: bool) -> (
    BoardView,
    Seq<(Seq<char>, int)>,
    Seq<Turn>,
    GameState,
)
    decreases turns.len(),
{
    if turns.len() == 0 {
        (starting_board(), Seq::empty(), Seq::empty(), GameState::Continue)
    } else {
        let (bv, hist, done, gs) = replay_outcome(turns.drop_last(), enforce);
        if done.len() < turns.len() - 1 {
            (bv, hist, done, gs)
        } else {
            match make_move_outcome(bv, hist, turns.last(), enforce) {
                Err(_) => (bv, hist, done, gs),
                Ok((full, bv2, hist2, gs2)) => (bv2, hist2, done.push(full), gs2),
            }
        }
    }
}

/// The history a list of turns shortens to when its last turn is undone.
pub open spec fn shortened(turns: Seq<Turn>) -> Seq<Turn> {
    if turns.len() == 0 {
        turns
    } else {
        turns.drop_last()
    }
}

/// The move-list text of a game record: each full move numbered, each ply
/// rendered in its shortest re-validating form against the position it was
/// played in, and a line break after every tenth full move.
pub open spec fn pgn_moves_from(bv: BoardView, turns: Seq<Turn>, i: int) -> Seq<char>
    decreases turns.len() - i,
{
    if i < 0 || i >= turns.len() {
        Seq::empty()
    } else {
        let number: Seq<char> = if i % 2 == 0 {
            dec_digits(i / 2 + 1) + seq!['.', ' ']
        } else {
            Seq::empty()
        };
        let min = minimum_move_spec(bv, turns[i]);
        let nl: Seq<char> = if (i % 2 == 1 || i == turns.len() - 1) && (i / 2) % 10 == 9 {
            seq!['\n']
        } else {
            Seq::empty()
        };
        number + notation_spec(min) + seq![' '] + nl + pgn_moves_from(
            apply_turn(bv, turns[i]),
            turns,
            i + 1,
        )
    }
}

/// The result token of a game record.
pub open spec fn result_token(gs: GameState) -> Seq<char> {
    match gs {
        GameState::Continue | GameState::Stop => seq!['*'],
        GameState::Win(w) => if w.is_white {
            seq!['1', '-', '0']
        } else {
            seq!['0', '-', '1']
        },
        GameState::Draw(_) => seq!['1', '/', '2', '-', '1', '/', '2'],
    }
}

/// The possessive suffix of the player-to-move message.
pub open spec fn turn_suffix() -> Seq<char> {
    seq!['\'', 's', ' ', 't', 'u', 'r', 'n']
}

/// The board is rendered from black's side for the given perspective
/// setting and side to move.
pub open spec fn render_from_black(rotate: RotateBoard, white_to_move: bool) -> bool {
    match rotate {
        RotateBoard::White => false,
        RotateBoard::Black => true,
        RotateBoard::Rotate => !white_to_move,
    }
}

/// Structure that holds the chess board, game history, and configuration
/// data
pub struct ChessGame {
    board: ChessBoard,
    /// The current game state
    pub game_state: GameState,
    position_counter: Counter,
    game_hist: Vec<Turn>,
    /// Sets the perspective that the game is played from: white, black, or
    /// switching between them
    pub rotate_board: RotateBoard,
    /// Sets whether move undos are allowed
    pub allow_undo: bool,
    /// The names of the players playing
    pub players: (String, String),
    /// Sets whether the check, capture, and checkmate flags must be
    /// specified, or will be generated from the move itself
    pub enforce_flags: bool,
}

/// Enum that specifies the orientation of the board when displayed
#[derive(Clone, Copy, Debug, PartialEq, Eq, Structural)]
pub enum RotateBoard {
    /// White prints the board with the first rank at the bottom left
    White,
    /// Black prints the board with the eighth rank at the bottom left
    Black,
    /// Rotate prints the board from the side of the player to move
    Rotate,
}

impl ChessGame {
    /// The game is well formed: its board is, and every recorded turn is a
    /// fully qualified turn that can be replayed.
    pub closed spec fn wf(self) -> bool {
        &&& self.board.wf()
        &&& forall|i: int|
            0 <= i < self.game_hist@.len() ==> (#[trigger] self.game_hist@[i]).wf()
                && self.game_hist@[i].fully_specified()
    }

    /// The board the game stands at.
    pub closed spec fn board_view(self) -> BoardView {
        self.board@
    }

    /// The recorded positions, with how often each was reached.
    pub closed spec fn hist_view(self) -> Seq<(Seq<char>, int)> {
        self.position_counter@
    }

    /// The turns played so far.
    pub closed spec fn turns_view(self) -> Seq<Turn> {
        self.game_hist@
    }

    /// The current game state.
    pub closed spec fn state(self) -> GameState {
        self.game_state
    }

    /// The perspective the game is played from.
    pub closed spec fn perspective(self) -> RotateBoard {
        self.rotate_board
    }

    /// Whether move undos are allowed.
    pub closed spec fn undo_allowed(self) -> bool {
        self.allow_undo
    }

    /// The names of the two players.
    pub closed spec fn names(self) -> (Seq<char>, Seq<char>) {
        (self.players.0@, self.players.1@)
    }

    /// Whether the turn flags must be specified by the caller.
    pub closed spec fn enforced(self) -> bool {
        self.enforce_flags
    }

    /// Returns a builder for the configuration data.
    pub fn builder() -> (r: ChessGameBuilder)
        ensures
            r.rotate_board == RotateBoard::White,
            r.allow_undo == false,
            r.players.0@ == seq!['W', 'h', 'i', 't', 'e'],
            r.players.1@ == seq!['B', 'l', 'a', 'c', 'k'],
            r.enforce_flags == true,
    {
        ChessGameBuilder::new()
    }

    /// Returns the serialization of the current board state.
    pub fn gen_fen(&self) -> (r: String)
        requires
            self.wf(),
        ensures
            r@ == fen_of(self.board_view()),
    {
        self.board.gen_fen()
    }

    /// Returns the game record for the current game history: the numbered
    /// move list in shortest notation, and the result token.
    pub fn gen_pgn(&self) -> (r: String)
        requires
            self.wf(),
        ensures
            r@ == pgn_moves_from(starting_board(), self.turns_view(), 0) + result_token(
                gamestate_spec(self.board_view(), self.hist_view()),
            ),
    {
        let mut out: Vec<char> = Vec::new();
        let mut test_board = ChessBoard::default();
        let mut i: usize = 0;
        while i < self.game_hist.len()
            invariant
                self.wf(),
                i <= self.game_hist@.len(),
                test_board.wf(),
                out@ + pgn_moves_from(test_board@, self.turns_view(), i as int) == pgn_moves_from(
                    starting_board(),
                    self.turns_view(),
                    0,
                ),
            decreases self.game_hist@.len() - i,
        {
            let ghost out0 = out@;
            let ghost bvi = test_board@;
            let turn = self.game_hist[i];
            proof {
                assert(self.game_hist@[i as int].wf());
                assert(self.game_hist@[i as int].fully_specified());
            }
            if i % 2 == 0 {
                push_dec_usize(i / 2 + 1, &mut out);
                out.push('.');
                out.push(' ');
            }
            let min = test_board.get_minimum_move(&turn);
            let min_text = min.notation();
            let mut mc = str_to_chars(min_text.as_str());
            out.append(&mut mc);
            out.push(' ');
            test_board.update_board(&turn);
            if (i % 2 == 1 || i + 1 == self.game_hist.len()) && (i / 2) % 10 == 9 {
                out.push('\n');
            }
            proof {
                assert(out@ + pgn_moves_from(test_board@, self.turns_view(), i + 1) =~= out0
                    + pgn_moves_from(bvi, self.turns_view(), i as int));
            }
            i += 1;
        }
        proof {
            assert(out@ =~= out@ + pgn_moves_from(
                test_board@,
                self.turns_view(),
                self.game_hist@.len() as int,
            ));
        }
        let gs = self.board.check_gamestate(&self.position_counter);
        let ghost cmoves = out@;
        match gs {
            GameState::Continue | GameState::Stop => {
                out.push('*');
            },
            GameState::Win(w) => {
                if w.is_white {
                    out.push('1');
                    out.push('-');
                    out.push('0');
                } else {
                    out.push('0');
                    out.push('-');
                    out.push('1');
                }
            },
            GameState::Draw(_) => {
                out.push('1');
                out.push('/');
                out.push('2');
                out.push('-');
                out.push('1');
                out.push('/');
                out.push('2');
            },
        }
        proof {
            assert(out@ =~= cmoves + result_token(
                gamestate_spec(self.board_view(), self.hist_view()),
            ));
        }
        chars_to_string(out)
    }

    /// Resets the state of the board, without resetting the configuration.
    pub fn reset(&mut self)
        ensures
            final(self).wf(),
            final(self).board_view() == starting_board(),
            final(self).hist_view() == Seq::<(Seq<char>, int)>::empty(),
            final(self).turns_view() == Seq::<Turn>::empty(),
            final(self).state() == GameState::Continue,
            final(self).perspective() == old(self).perspective(),
            final(self).undo_allowed() == old(self).undo_allowed(),
            final(self).names() == old(self).names(),
            final(self).enforced() == old(self).enforced(),
    {
        self.board = ChessBoard::default();
        self.game_state = GameState::Continue;
        self.position_counter = Counter::new();
        self.game_hist = Vec::new();
    }

    /// Makes a move based on the inputted [Turn]: validates and completes
    /// it, settles its flags, counts the position, applies it, and
    /// computes the new game state, as [make_move_outcome] describes.
    ///
    /// # Errors
    ///
    /// Returns an error, and changes nothing, if the move is not a legal
    /// chess move, or, when flags are enforced, if its flags are wrong.
    pub fn make_move(&mut self, turn: &Turn) -> (r: Result<(), TurnError>)
        requires
            old(self).wf(),
            turn.wf(),
        ensures
            final(self).wf(),
            final(self).perspective() == old(self).perspective(),
            final(self).undo_allowed() == old(self).undo_allowed(),
            final(self).names() == old(self).names(),
            final(self).enforced() == old(self).enforced(),
            match r {
                Ok(_) => ({
                    &&& make_move_outcome(
                        old(self).board_view(),
                        old(self).hist_view(),
                        *turn,
                        old(self).enforced(),
                    ) matches Ok((full, bv2, hist2, gs))
                    &&& final(self).board_view() == bv2
                    &&& final(self).hist_view() == hist2
                    &&& final(self).turns_view() == old(self).turns_view().push(full)
                    &&& final(self).state() == gs
                }),
                Err(e) => ({
                    &&& make_move_outcome(
                        old(self).board_view(),
                        old(self).hist_view(),
                        *turn,
                        old(self).enforced(),
                    ) == Err::<(Turn, BoardView, Seq<(Seq<char>, int)>, GameState), TurnError>(e)
                    &&& final(self).board_view() == old(self).board_view()
                    &&& final(self).hist_view() == old(self).hist_view()
                    &&& final(self).turns_view() == old(self).turns_view()
                    &&& final(self).state() == old(self).state()
                }),
            },
    {
        let full0 = match self.board.validate_and_complete_turn(*turn) {
            Ok(t) => t,
            Err(e) => {
                return Err(e);
            },
        };
        let full_turn = if self.enforce_flags {
            match self.board.enforce_flags(&full0) {
                Ok(_) => {},
                Err(e) => {
                    return Err(e);
                },
            }
            full0
        } else {
            self.board.gen_flags(full0)
        };
        let key = self.board.position_fields();
        self.position_counter.add(key);
        self.board.update_board(&full_turn);
        self.game_hist.push(full_turn);
        self.game_state = self.board.check_gamestate(&self.position_counter);
        proof {
            assert forall|i: int|
                0 <= i < self.game_hist@.len() implies (#[trigger] self.game_hist@[i]).wf()
                && self.game_hist@[i].fully_specified() by {
                if i < self.game_hist@.len() - 1 {
                    assert(self.game_hist@[i] == old(self).game_hist@[i]);
                }
            }
        }
        Ok(())
    }

    /// Undoes the last move if the `allow_undo` flag is set, reverting to
    /// the state reached by replaying the shortened history from the
    /// start, as [replay_outcome] describes.
    pub fn undo_move(&mut self) -> (r: Option<()>)
        requires
            old(self).wf(),
        ensures
            final(self).wf(),
            final(self).perspective() == old(self).perspective(),
            final(self).undo_allowed() == old(self).undo_allowed(),
            final(self).names() == old(self).names(),
            final(self).enforced() == old(self).enforced(),
            match r {
                None => ({
                    &&& !old(self).undo_allowed()
                    &&& final(self).board_view() == old(self).board_view()
                    &&& final(self).hist_view() == old(self).hist_view()
                    &&& final(self).turns_view() == old(self).turns_view()
                    &&& final(self).state() == old(self).state()
                }),
                Some(_) => old(self).undo_allowed() && ({
                    let (bv, hist, done, gs) = replay_outcome(
                        shortened(old(self).turns_view()),
                        old(self).enforced(),
                    );
                    &&& final(self).board_view() == bv
                    &&& final(self).hist_view() == hist
                    &&& final(self).turns_view() == done
                    &&& final(self).state() == gs
                }),
            },
    {
        if !self.allow_undo {
            return None;
        }
        let _last = self.game_hist.pop();
        let ghost target = self.game_hist@;
        proof {
            assert(target =~= shortened(old(self).turns_view()));
        }
        let history = clone_turns(&self.game_hist);
        self.board = ChessBoard::default();
        self.game_state = GameState::Continue;
        self.position_counter = Counter::new();
        self.game_hist = Vec::new();
        proof {
            assert(target.take(0) =~= Seq::<Turn>::empty());
        }
        let mut i: usize = 0;
        let mut stopped = false;
        while i < history.len()
            invariant
                history@ == target,
                forall|k: int|
                    0 <= k < target.len() ==> (#[trigger] target[k]).wf()
                        && target[k].fully_specified(),
                i <= target.len(),
                self.wf(),
                self.perspective() == old(self).perspective(),
                self.undo_allowed() == old(self).undo_allowed(),
                self.names() == old(self).names(),
                self.enforced() == old(self).enforced(),
                ({
                    let (bv, hist, done, gs) = replay_outcome(
                        target.take(i as int),
                        self.enforce_flags,
                    );
                    &&& self.board_view() == bv
                    &&& self.hist_view() == hist
                    &&& self.turns_view() == done
                    &&& done.len() <= i
                    &&& (stopped <==> done.len() < i)
                    &&& self.state() == gs
                }),
            decreases target.len() - i,
        {
            let turn = history[i];
            proof {
                assert(target[i as int].wf() && target[i as int].fully_specified());
                assert(target.take(i + 1).drop_last() =~= target.take(i as int));
                assert(target.take(i + 1).last() == target[i as int]);
            }
            let ghost pre = *self;
            let ghost prev = replay_outcome(target.take(i as int), self.enforce_flags);
            if !stopped {
                match self.make_move(&turn) {
                    Ok(_) => {
                        proof {
                            assert(make_move_outcome(
                                prev.0,
                                prev.1,
                                target[i as int],
                                self.enforce_flags,
                            ) is Ok);
                        }
                    },
                    Err(_) => {
                        stopped = true;
                        proof {
                            assert(make_move_outcome(
                                prev.0,
                                prev.1,
                                target[i as int],
                                self.enforce_flags,
                            ) is Err);
                        }
                    },
                }
            }
            i += 1;
        }
        proof {
            assert(target.take(target.len() as int) =~= target);
        }
        Some(())
    }

    /// Returns the visual state of the board, depending on the perspective
    /// set in `rotate_board`.
    pub fn board_string(&self) -> (r: String)
        requires
            self.wf(),
        ensures
            r@ == board_render(
                self.board_view(),
                render_from_black(self.perspective(), self.board_view().white_to_move),
            ),
    {
        let from_black = match self.rotate_board {
            RotateBoard::White => false,
            RotateBoard::Black => true,
            RotateBoard::Rotate => !self.board.is_white(),
        };
        self.board.render(from_black)
    }

    /// Returns the message that says which player's turn it is.
    pub fn player_string(&self) -> (r: String)
        ensures
            r@ == (if self.board_view().white_to_move {
                self.names().0
            } else {
                self.names().1
            }) + turn_suffix(),
    {
        let name = if self.board.is_white() {
            self.players.0.clone()
        } else {
            self.players.1.clone()
        };
        proof {
            reveal_strlit("'s turn");
        }
        let r = name.concat("'s turn");
        proof {
            assert(r@ =~= (if self.board_view().white_to_move {
                self.players.0@
            } else {
                self.players.1@
            }) + turn_suffix());
        }
        r
    }

    /// Returns true if the current player is white, false if it is black.
    pub fn is_white(&self) -> (r: bool)
        ensures
            r == self.board_view().white_to_move,
    {
        self.board.is_white()
    }

    /// Returns the game history.
    pub fn game_hist(&self) -> (r: &Vec<Turn>)
        ensures
            r@ == self.turns_view(),
    {
        &self.game_hist
    }

    /// Returns the turn with the least amount of information that still
    /// resolves to the same fully qualified move.
    pub fn get_minimum_move(&self, turn: &Turn) -> (r: Turn)
        requires
            self.wf(),
            turn.wf(),
            turn.fully_specified(),
        ensures
            r == minimum_move_spec(self.board_view(), *turn),
            r.wf(),
    {
        self.board.get_minimum_move(turn)
    }

    /// Returns the board.
    pub fn board(&self) -> (r: &ChessBoard)
        ensures
            r@ == self.board_view(),
            self.wf() ==> r.wf(),
    {
        &self.board
    }
}


/// The game reached by feeding a list of turns into an existing game; a
/// turn that does not validate stops the feed. The result counts how many
/// turns were applied.
pub open spec fn feed_outcome(
    bv: BoardView,
    hist: Seq<(Seq<char>, int)>,
    turns: Seq<Turn>,
    gs: GameState,
    moves: Seq<Turn>,
    enforce: bool,
) -> (BoardView, Seq<(Seq<char>, int)>, Seq<Turn>, GameState, int)
    decreases moves.len(),
{
    if moves.len() == 0 {
        (bv, hist, turns, gs, 0)
    } else {
        let (bv1, hist1, turns1, gs1, n) = feed_outcome(
            bv,
            hist,
            turns,
            gs,
            moves.drop_last(),
            enforce,
        );
        if n < moves.len() - 1 {
            (bv1, hist1, turns1, gs1, n)
        } else {
            match make_move_outcome(bv1, hist1, moves.last(), enforce) {
                Err(_) => (bv1, hist1, turns1, gs1, n),
                Ok((full, bv2, hist2, gs2)) => (bv2, hist2, turns1.push(full), gs2, n + 1),
            }
        }
    }
}

/// The game state a result token names, if it names one.
pub open spec fn result_state(word: Seq<char>) -> Option<GameState> {
    if word == seq!['1', '/', '2', '-', '1', '/', '2'] {
        Some(GameState::Draw(crate::board::DrawType::Offer))
    } else if word == seq!['1', '-', '0'] {
        Some(
            GameState::Win(crate::board::Win { is_white: true, kind: crate::board::WinType::Resign }),
        )
    } else if word == seq!['0', '-', '1'] {
        Some(
            GameState::Win(
                crate::board::Win { is_white: false, kind: crate::board::WinType::Resign },
            ),
        )
    } else if word == seq!['*'] {
        Some(GameState::Continue)
    } else {
        None
    }
}

/// The value of the last tag pair with the given name, if any.
pub open spec fn lookup_last(pairs: Seq<(Seq<char>, Seq<char>)>, key: Seq<char>) -> Option<
    Seq<char>,
>
    decreases pairs.len(),
{
    if pairs.len() == 0 {
        None
    } else if pairs.last().0 == key {
        Some(pairs.last().1)
    } else {
        lookup_last(pairs.drop_last(), key)
    }
}

/// The result token a record claims: the value of its `Result` tag pair,
/// or the last word of its text, or nothing.
pub open spec fn claimed_result(s: Seq<char>) -> Seq<char> {
    let pairs = crate::pgn::record_of(s).0;
    match lookup_last(pairs, seq!['R', 'e', 's', 'u', 'l', 't']) {
        Some(w) => w,
        None => {
            let words = crate::pgn::whitespace_words(s);
            if words.len() > 0 {
                words.last()
            } else {
                Seq::empty()
            }
        },
    }
}

/// Plays the turns of one record into the game, stopping at the first
/// move that no longer validates; when every move applied and the game is
/// still running, the record's claimed result, if it names an ended game,
/// is taken over.
pub fn play_from_pgn(game: &mut ChessGame, pgn_string: String)
    requires
        old(game).wf(),
    ensures
        final(game).wf(),
        final(game).perspective() == old(game).perspective(),
        final(game).undo_allowed() == old(game).undo_allowed(),
        final(game).names() == old(game).names(),
        final(game).enforced() == old(game).enforced(),
        ({
            let moves = crate::pgn::record_of(pgn_string@).1;
            let (bv, hist, turns, gs, n) = feed_outcome(
                old(game).board_view(),
                old(game).hist_view(),
                old(game).turns_view(),
                old(game).state(),
                moves,
                old(game).enforced(),
            );
            &&& final(game).board_view() == bv
            &&& final(game).hist_view() == hist
            &&& final(game).turns_view() == turns
            &&& final(game).state() == (if n == moves.len() && gs == GameState::Continue {
                match result_state(claimed_result(pgn_string@)) {
                    Some(st) => st,
                    None => gs,
                }
            } else {
                gs
            })
        }),
{
    let (info, moves) = crate::pgn::read_pgn(pgn_string.as_str());
    let ghost mv = crate::pgn::record_of(pgn_string@).1;
    proof {
        assert(moves@ == mv);
    }
    let mut i: usize = 0;
    let mut stopped = false;
    proof {
        assert(mv.take(0) =~= Seq::<Turn>::empty());
    }
    while i < moves.len()
        invariant
            old(game).wf(),
            moves@ == mv,
            forall|k: int| 0 <= k < mv.len() ==> (#[trigger] mv[k]).wf(),
            i <= mv.len(),
            game.wf(),
            game.perspective() == old(game).perspective(),
            game.undo_allowed() == old(game).undo_allowed(),
            game.names() == old(game).names(),
            game.enforced() == old(game).enforced(),
            ({
                let (bv, hist, turns, gs, n) = feed_outcome(
                    old(game).board_view(),
                    old(game).hist_view(),
                    old(game).turns_view(),
                    old(game).state(),
                    mv.take(i as int),
                    old(game).enforced(),
                );
                &&& game.board_view() == bv
                &&& game.hist_view() == hist
                &&& game.turns_view() == turns
                &&& game.state() == gs
                &&& n <= i
                &&& (stopped <==> n < i)
            }),
        decreases mv.len() - i,
    {
        let turn = moves[i];
        proof {
            assert(mv[i as int].wf());
            assert(mv.take(i + 1).drop_last() =~= mv.take(i as int));
            assert(mv.take(i + 1).last() == mv[i as int]);
        }
        if !stopped {
            match game.make_move(&turn) {
                Ok(_) => {},
                Err(_) => {
                    stopped = true;
                },
            }
        }
        i += 1;
    }
    proof {
        assert(mv.take(mv.len() as int) =~= mv);
    }
    if stopped {
        return ;
    }
    let continuing = matches!(game.game_state, GameState::Continue);
    if !continuing {
        return ;
    }
    let word = match lookup_result(&info) {
        Some(w) => w,
        None => match crate::pgn::get_game_result(pgn_string.as_str()) {
            Some(w) => w,
            None => {
                let empty_word = String::new();
                proof {
                    assert(crate::pgn::whitespace_words(pgn_string@).len() == 0);
                }
                empty_word
            },
        },
    };
    proof {
        assert(word@ == claimed_result(pgn_string@));
        reveal_strlit("1/2-1/2");
        reveal_strlit("1-0");
        reveal_strlit("0-1");
        reveal_strlit("*");
    }
    let draw_tok = String::from_str("1/2-1/2");
    let white_tok = String::from_str("1-0");
    let black_tok = String::from_str("0-1");
    let star_tok = String::from_str("*");
    proof {
        assert(draw_tok@ =~= seq!['1', '/', '2', '-', '1', '/', '2']);
        assert(white_tok@ =~= seq!['1', '-', '0']);
        assert(black_tok@ =~= seq!['0', '-', '1']);
        assert(star_tok@ =~= seq!['*']);
    }
    if word == draw_tok {
        game.game_state = GameState::Draw(crate::board::DrawType::Offer);
    } else if word == white_tok {
        game.game_state = GameState::Win(
            crate::board::Win { is_white: true, kind: crate::board::WinType::Resign },
        );
    } else if word == black_tok {
        game.game_state = GameState::Win(
            crate::board::Win { is_white: false, kind: crate::board::WinType::Resign },
        );
    }
}

/// Returns the value of the last `Result` tag pair, if any.
fn lookup_result(info: &Vec<(String, String)>) -> (r: Option<String>)
    ensures
        ({
            let pairs = info@.map_values(|p: (String, String)| (p.0@, p.1@));
            match r {
                Some(w) => lookup_last(pairs, seq!['R', 'e', 's', 'u', 'l', 't']) == Some(w@),
                None => lookup_last(pairs, seq!['R', 'e', 's', 'u', 'l', 't']) is None,
            }
        }),
{
    proof {
        reveal_strlit("Result");
    }
    let key = String::from_str("Result");
    proof {
        assert(key@ =~= seq!['R', 'e', 's', 'u', 'l', 't']);
    }
    let ghost pairs = info@.map_values(|p: (String, String)| (p.0@, p.1@));
    let mut i: usize = info.len();
    proof {
        assert(pairs.take(i as int) =~= pairs);
    }
    while i > 0
        invariant
            pairs == info@.map_values(|p: (String, String)| (p.0@, p.1@)),
            key@ == seq!['R', 'e', 's', 'u', 'l', 't'],
            i <= info@.len(),
            lookup_last(pairs, key@) == lookup_last(pairs.take(i as int), key@),
        decreases i,
    {
        i -= 1;
        proof {
            assert(pairs.take(i + 1).drop_last() =~= pairs.take(i as int));
            assert(pairs.take(i + 1).last() == pairs[i as int]);
            assert(pairs[i as int] == (info@[i as int].0@, info@[i as int].1@));
        }
        if info[i].0 == key {
            return Some(info[i].1.clone());
        }
    }
    proof {
        assert(pairs.take(0) =~= Seq::<(Seq<char>, Seq<char>)>::empty());
    }
    None
}

/// Copies a list of turns.
fn clone_turns(v: &Vec<Turn>) -> (r: Vec<Turn>)
    ensures
        r@ == v@,
{
    let mut r: Vec<Turn> = Vec::new();
    let mut i: usize = 0;
    while i < v.len()
        invariant
            i <= v@.len(),
            r@ == v@.take(i as int),
        decreases v@.len() - i,
    {
        r.push(v[i]);
        proof {
            assert(r@ =~= v@.take(i + 1));
        }
        i += 1;
    }
    proof {
        assert(v@.take(v@.len() as int) =~= v@);
    }
    r
}

/// Appends the decimal digits of the number.
fn push_dec_usize(n: usize, out: &mut Vec<char>)
    ensures
        final(out)@ == old(out)@ + dec_digits(n as int),
    decreases n,
{
    let d = (n % 10) as u8;
    if n < 10 {
        out.push(digit_to_char_game(d));
        proof {
            assert(out@ =~= old(out)@ + dec_digits(n as int));
        }
    } else {
        push_dec_usize(n / 10, out);
        out.push(digit_to_char_game(d));
        proof {
            assert(out@ =~= old(out)@ + dec_digits(n as int));
        }
    }
}

/// Returns the character for a single decimal digit.
fn digit_to_char_game(d: u8) -> (r: char)
    requires
        d < 10,
    ensures
        r == crate::text::digit_char(d as int),
{
    match d {
        0 => '0',
        1 => '1',
        2 => '2',
        3 => '3',
        4 => '4',
        5 => '5',
        6 => '6',
        7 => '7',
        8 => '8',
        _ => '9',
    }
}

impl Default for ChessGame {
    /// A fresh game at the starting position, with the default
    /// configuration.
    fn default() -> (r: ChessGame)
        ensures
            r.wf(),
            r.board_view() == starting_board(),
            r.hist_view() == Seq::<(Seq<char>, int)>::empty(),
            r.turns_view() == Seq::<Turn>::empty(),
            r.state() == GameState::Continue,
            r.perspective() == RotateBoard::White,
            r.undo_allowed() == false,
            r.names().0 == seq!['W', 'h', 'i', 't', 'e'],
            r.names().1 == seq!['B', 'l', 'a', 'c', 'k'],
            r.enforced() == true,
    {
        proof {
            reveal_strlit("White");
            reveal_strlit("Black");
        }
        let r = ChessGame {
            board: ChessBoard::default(),
            game_state: GameState::Continue,
            position_counter: Counter::new(),
            game_hist: Vec::new(),
            rotate_board: RotateBoard::White,
            allow_undo: false,
            players: (String::from_str("White"), String::from_str("Black")),
            enforce_flags: true,
        };
        proof {
            assert(r.players.0@ =~= seq!['W', 'h', 'i', 't', 'e']);
            assert(r.players.1@ =~= seq!['B', 'l', 'a', 'c', 'k']);
        }
        r
    }
}

/// Builder struct for setting configuration on a [ChessGame]
pub struct ChessGameBuilder {
    /// The perspective the game is played from
    pub rotate_board: RotateBoard,
    /// Whether move undos are allowed
    pub allow_undo: bool,
    /// The names of the players
    pub players: (String, String),
    /// Whether the turn flags must be specified by the caller
    pub enforce_flags: bool,
}

impl ChessGameBuilder {
    /// Initializes a builder with the default configuration.
    pub fn new() -> (r: ChessGameBuilder)
        ensures
            r.rotate_board == RotateBoard::White,
            r.allow_undo == false,
            r.players.0@ == seq!['W', 'h', 'i', 't', 'e'],
            r.players.1@ == seq!['B', 'l', 'a', 'c', 'k'],
            r.enforce_flags == true,
    {
        proof {
            reveal_strlit("White");
            reveal_strlit("Black");
        }
        let r = ChessGameBuilder {
            rotate_board: RotateBoard::White,
            allow_undo: false,
            players: (String::from_str("White"), String::from_str("Black")),
            enforce_flags: true,
        };
        proof {
            assert(r.players.0@ =~= seq!['W', 'h', 'i', 't', 'e']);
            assert(r.players.1@ =~= seq!['B', 'l', 'a', 'c', 'k']);
        }
        r
    }

    /// Sets the perspective the game is played from.
    pub fn rotate_board(self, val: RotateBoard) -> (r: ChessGameBuilder)
        ensures
            r == (ChessGameBuilder { rotate_board: val, ..self }),
    {
        ChessGameBuilder { rotate_board: val, ..self }
    }

    /// Sets whether move undos are allowed.
    pub fn allow_undo(self, val: bool) -> (r: ChessGameBuilder)
        ensures
            r == (ChessGameBuilder { allow_undo: val, ..self }),
    {
        ChessGameBuilder { allow_undo: val, ..self }
    }

    /// Sets the player names, white first, then black.
    pub fn players(self, names: (String, String)) -> (r: ChessGameBuilder)
        ensures
            r == (ChessGameBuilder { players: names, ..self }),
    {
        ChessGameBuilder { players: names, ..self }
    }

    /// Sets whether the turn flags must be specified by the caller.
    pub fn enforce_flags(self, val: bool) -> (r: ChessGameBuilder)
        ensures
            r == (ChessGameBuilder { enforce_flags: val, ..self }),
    {
        ChessGameBuilder { enforce_flags: val, ..self }
    }

    /// Builds a [ChessGame] with the specified configuration data.
    pub fn build(self) -> (r: ChessGame)
        ensures
            r.wf(),
            r.board_view() == starting_board(),
            r.hist_view() == Seq::<(Seq<char>, int)>::empty(),
            r.turns_view() == Seq::<Turn>::empty(),
            r.state() == GameState::Continue,
            r.perspective() == self.rotate_board,
            r.undo_allowed() == self.allow_undo,
            r.names() == (self.players.0@, self.players.1@),
            r.enforced() == self.enforce_flags,
    {
        ChessGame {
            board: ChessBoard::default(),
            game_state: GameState::Continue,
            position_counter: Counter::new(),
            game_hist: Vec::new(),
            rotate_board: self.rotate_board,
            allow_undo: self.allow_undo,
            players: self.players,
            enforce_flags: self.enforce_flags,
        }
    }
}

} // verus!
