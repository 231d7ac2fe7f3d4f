//! The turn orchestrator: a phase state machine over the board engine.
//!
//! A session accepts one directional move intent at a time. While `Idle`, an
//! intent whose slide changes the board is stored as the pending result and
//! the session enters `Sliding`; the live grid is still the pre-move grid
//! while the presentation interpolates tile positions. When the host reports
//! every slide animation finished, the pending result is consumed exactly
//! once: the new grid is committed atomically, the score grows by the gain,
//! a random tile is spawned, and the session enters `Settling` while merge
//! and spawn effects run. When those finish the session returns to `Idle`.
//! Win and loss are checked only while `Idle`. Presentation timing itself
//! (timers, easing) lives with the host; the session only takes its
//! completion signals as calls.

use vstd::prelude::*;

use crate::board::Board;
use crate::board::Direction;
use crate::board::MAX_MOVE_SCORE;
use crate::board::SlideResult;
use crate::board::can_move_spec;
use crate::board::count_tiles;
use crate::board::grid_bounded;
use crate::board::has_empty;
use crate::board::slide_changed;
use crate::board::slide_grid;
use crate::board::slide_merge_dests;
use crate::board::slide_movements;
use crate::board::slide_score;
use crate::rng::RandomSource;
use crate::slide::MAX_EXPONENT;

verus! {

/// The tile exponent that wins the game: `2^11 == 2048`.
pub const WIN_EXPONENT: u8 = 11;

/// Some cell holds the winning exponent.
pub open spec fn has_win_tile(g: Seq<u8>) -> bool {
    exists|k: int| 0 <= k < 16 && g[k] == WIN_EXPONENT
}

/// Phase of the current turn. Exactly one is active at a time.
#[derive(Clone, Copy, PartialEq, Eq, Structural, Debug)]
pub enum TurnPhase {
    /// Accepting new move intents.
    Idle,
    /// A committed move's presentation is interpolating; the live grid is
    /// still the pre-move grid.
    Sliding,
    /// The new grid is committed; merge and spawn effects are running.
    Settling,
}

/// Whether the session is still in play, has reached the winning tile, or
/// has no move left.
#[derive(Clone, Copy, PartialEq, Eq, Structural, Debug)]
pub enum GamePhase {
    Playing,
    Won,
    GameOver,
}

/// One game session: the live grid and score, the turn phase machine, and
/// at most one pending slide result, all owned together and reset only by an
/// explicit new game.
pub struct GameSession {
    /// The live grid. Mutated only by the commit step and by a new game.
    pub board: Board,
    /// Monotonically non-decreasing accumulator; reset only by a new game.
    pub score: u64,
    pub turn_phase: TurnPhase,
    pub game_phase: GamePhase,
    /// Holds at most one slide result, only while `Sliding`; cleared the
    /// moment it is consumed.
    pub pending: Option<SlideResult>,
    /// One-shot flag: the win fires only once per session.
    pub has_won: bool,
}

impl GameSession {
    /// Internal consistency: the grid is a board the engine can have
    /// produced, and a pending result exists only while `Sliding` and is
    /// itself such a board with a bounded gain.
    pub open spec fn wf(&self) -> bool {
        &&& self.board@.len() == 16
        &&& grid_bounded(self.board@, (MAX_EXPONENT + 1) as u8)
        &&& match self.pending {
            Some(res) => {
                &&& self.turn_phase == TurnPhase::Sliding
                &&& res.new_board@.len() == 16
                &&& grid_bounded(res.new_board@, (MAX_EXPONENT + 1) as u8)
                &&& res.score_gained <= MAX_MOVE_SCORE
            },
            None => true,
        }
    }

    /// A fresh session: two random tiles, score zero, idle and playing.
    pub fn new(rng: &mut RandomSource) -> (s: GameSession)
        ensures
            s.wf(),
            count_tiles(s.board@) == 2,
            grid_bounded(s.board@, 2),
            s.score == 0,
            s.turn_phase == TurnPhase::Idle,
            s.game_phase == GamePhase::Playing,
            s.pending is None,
            !s.has_won,
    {
        GameSession {
            board: Board::with_two_tiles(rng),
            score: 0,
            turn_phase: TurnPhase::Idle,
            game_phase: GamePhase::Playing,
            pending: None,
            has_won: false,
        }
    }

    /// A session starting from a prepared grid.
    pub fn with_board(board: Board) -> (s: GameSession)
        requires
            board.wf(),
        ensures
            s.wf(),
            s.board == board,
            s.score == 0,
            s.turn_phase == TurnPhase::Idle,
            s.game_phase == GamePhase::Playing,
            s.pending is None,
            !s.has_won,
    {
        GameSession {
            board,
            score: 0,
            turn_phase: TurnPhase::Idle,
            game_phase: GamePhase::Playing,
            pending: None,
            has_won: false,
        }
    }

    /// Hard reset, bypassing the transition sequence: fresh grid of two
    /// random tiles, score zero, idle, playing, nothing pending, win flag
    /// cleared.
    pub fn new_game(&mut self, rng: &mut RandomSource)
        ensures
            final(self).wf(),
            count_tiles(final(self).board@) == 2,
            grid_bounded(final(self).board@, 2),
            final(self).score == 0,
            final(self).turn_phase == TurnPhase::Idle,
            final(self).game_phase == GamePhase::Playing,
            final(self).pending is None,
            !final(self).has_won,
    {
        self.board = Board::with_two_tiles(rng);
        self.score = 0;
        self.turn_phase = TurnPhase::Idle;
        self.game_phase = GamePhase::Playing;
        self.pending = None;
        self.has_won = false;
    }

    /// Deliver a directional move intent. Honoured only while idle and in
    /// play, and only when the slide would change the board: the computed
    /// result then becomes pending and the turn enters `Sliding`. In every
    /// other case the intent is discarded with no effect on grid, score or
    /// pending result.
    pub fn handle_move_intent(&mut self, direction: Direction) -> (accepted: bool)
        requires
            old(self).wf(),
            grid_bounded(old(self).board@, MAX_EXPONENT),
        ensures
            final(self).wf(),
            (old(self).turn_phase != TurnPhase::Idle || old(self).game_phase
                != GamePhase::Playing) ==> (*final(self) == *old(self) && !accepted),
            (old(self).turn_phase == TurnPhase::Idle && old(self).game_phase
                == GamePhase::Playing) ==> if slide_changed(old(self).board@, direction) {
                &&& accepted
                &&& final(self).turn_phase == TurnPhase::Sliding
                &&& final(self).board == old(self).board
                &&& final(self).score == old(self).score
                &&& final(self).game_phase == old(self).game_phase
                &&& final(self).has_won == old(self).has_won
                &&& match final(self).pending {
                    Some(res) => {
                        &&& res.changed
                        &&& res.new_board@ == slide_grid(old(self).board@, direction)
                        &&& res.score_gained == slide_score(old(self).board@, direction)
                        &&& res.movements@ == slide_movements(old(self).board@, direction)
                        &&& res.merge_destinations@ == slide_merge_dests(
                            old(self).board@,
                            direction,
                        )
                    },
                    None => false,
                }
            } else {
                *final(self) == *old(self) && !accepted
            },
    {
        if !(matches!(self.turn_phase, TurnPhase::Idle) && matches!(
            self.game_phase,
            GamePhase::Playing,
        )) {
            return false;
        }
        let result = self.board.compute_slide(direction);
        if !result.changed {
            return false;
        }
        self.pending = Some(result);
        self.turn_phase = TurnPhase::Sliding;
        true
    }

    /// To be called when every slide animation has finished. Consumes the
    /// pending result exactly once: commits its grid as the live grid, adds
    /// the gain to the score, places one random tile, and enters `Settling`.
    /// Returns the merge destinations and the spawned cell, which the host
    /// animates. Outside `Sliding` (or with nothing pending, which the
    /// transitions prevent) this is a guarded no-op.
    pub fn finish_sliding(&mut self, rng: &mut RandomSource) -> (r: Option<
        (Vec<usize>, Option<usize>),
    >)
        requires
            old(self).wf(),
            old(self).score + MAX_MOVE_SCORE <= u64::MAX,
        ensures
            final(self).wf(),
            (old(self).turn_phase != TurnPhase::Sliding || old(self).game_phase
                != GamePhase::Playing) ==> (*final(self) == *old(self) && r is None),
            (old(self).turn_phase == TurnPhase::Sliding && old(self).game_phase
                == GamePhase::Playing) ==> match old(self).pending {
                None => *final(self) == *old(self) && r is None,
                Some(res) => {
                    &&& match r {
                        Some(outcome) => {
                            &&& outcome.0@ == res.merge_destinations@
                            &&& match outcome.1 {
                                Some(idx) => idx < 16 && res.new_board@[idx as int] == 0
                                    && (final(self).board@ == res.new_board@.update(idx as int, 1u8)
                                        || final(self).board@ == res.new_board@.update(idx as int, 2u8)),
                                None => final(self).board@ == res.new_board@,
                            }
                            &&& (outcome.1 is Some <==> has_empty(res.new_board@))
                        },
                        None => false,
                    }
                    &&& final(self).score == old(self).score + res.score_gained
                    &&& final(self).turn_phase == TurnPhase::Settling
                    &&& final(self).pending is None
                    &&& final(self).game_phase == old(self).game_phase
                    &&& final(self).has_won == old(self).has_won
                },
            },
    {
        if !(matches!(self.turn_phase, TurnPhase::Sliding) && matches!(
            self.game_phase,
            GamePhase::Playing,
        )) {
            return None;
        }
        let taken = self.pending.take();
        match taken {
            None => None,
            Some(res) => {
                let SlideResult { new_board, merge_destinations, score_gained, .. } = res;
                self.board = new_board;
                self.score = self.score + score_gained;
                let spawned = self.board.place_random_tile(rng);
                self.turn_phase = TurnPhase::Settling;
                Some((merge_destinations, spawned))
            },
        }
    }

    /// To be called when every merge-pulse and spawn effect has finished:
    /// returns the turn to `Idle`. No board mutation occurs. Outside
    /// `Settling` this is a guarded no-op.
    pub fn finish_settling(&mut self)
        requires
            old(self).wf(),
        ensures
            final(self).wf(),
            (old(self).turn_phase != TurnPhase::Settling || old(self).game_phase
                != GamePhase::Playing) ==> *final(self) == *old(self),
            (old(self).turn_phase == TurnPhase::Settling && old(self).game_phase
                == GamePhase::Playing) ==> {
                &&& final(self).turn_phase == TurnPhase::Idle
                &&& final(self).board == old(self).board
                &&& final(self).score == old(self).score
                &&& final(self).game_phase == old(self).game_phase
                &&& final(self).pending == old(self).pending
                &&& final(self).has_won == old(self).has_won
            },
    {
        if matches!(self.turn_phase, TurnPhase::Settling) && matches!(
            self.game_phase,
            GamePhase::Playing,
        ) {
            self.turn_phase = TurnPhase::Idle;
        }
    }

    /// Win and loss detection, run only while idle and in play: the first
    /// time the grid holds the winning tile the session moves to `Won` (once
    /// per session, via the one-shot flag); otherwise, when no move is left,
    /// to `GameOver`. Never mutates grid, score or pending result.
    pub fn check_game_state(&mut self)
        requires
            old(self).wf(),
        ensures
            final(self).wf(),
            final(self).board == old(self).board,
            final(self).score == old(self).score,
            final(self).turn_phase == old(self).turn_phase,
            final(self).pending == old(self).pending,
            (old(self).turn_phase != TurnPhase::Idle || old(self).game_phase
                != GamePhase::Playing) ==> *final(self) == *old(self),
            (old(self).turn_phase == TurnPhase::Idle && old(self).game_phase
                == GamePhase::Playing) ==> if !old(self).has_won && has_win_tile(old(self).board@) {
                final(self).has_won && final(self).game_phase == GamePhase::Won
            } else if !can_move_spec(old(self).board@) {
                final(self).has_won == old(self).has_won && final(self).game_phase
                    == GamePhase::GameOver
            } else {
                *final(self) == *old(self)
            },
    {
        if !(matches!(self.turn_phase, TurnPhase::Idle) && matches!(
            self.game_phase,
            GamePhase::Playing,
        )) {
            return ;
        }
        if !self.has_won && self.board.contains_exponent(WIN_EXPONENT) {
            self.has_won = true;
            self.game_phase = GamePhase::Won;
            return ;
        }
        if !self.board.can_move() {
            self.game_phase = GamePhase::GameOver;
        }
    }

    /// Resume play after a win (the winning overlay offers it); otherwise a
    /// no-op.
    pub fn continue_playing(&mut self)
        requires
            old(self).wf(),
        ensures
            final(self).wf(),
            old(self).game_phase == GamePhase::Won ==> {
                &&& final(self).game_phase == GamePhase::Playing
                &&& final(self).board == old(self).board
                &&& final(self).score == old(self).score
                &&& final(self).turn_phase == old(self).turn_phase
                &&& final(self).pending == old(self).pending
                &&& final(self).has_won == old(self).has_won
            },
            old(self).game_phase != GamePhase::Won ==> *final(self) == *old(self),
    {
        if matches!(self.game_phase, GamePhase::Won) {
            self.game_phase = GamePhase::Playing;
        }
    }
}

} // verus!
