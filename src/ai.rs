//! The reactive AI: sight and a three-state decision machine.

use vstd::prelude::*;
use crate::models::{Position, dist_sq};
use crate::stats::{Health, ratio_below_quarter};

verus! {

/// How far an entity sees: a circle of radius `view_range`.
#[derive(Debug, Clone, Copy, PartialEq, Eq, Structural)]
pub struct Vision {
    pub view_range: usize,
}

/// Whether an entity with vision `v` at `a` sees `b`: the squared distance is
/// at most the squared range.
pub open spec fn sees(v: Vision, a: Position, b: Position) -> bool {
    dist_sq(a, b) <= v.view_range * v.view_range
}

impl Vision {
    pub fn new(view_range: usize) -> (r: Vision)
        ensures
            r.view_range == view_range,
    {
        Vision { view_range }
    }

    /// Whether `position` is in sight from `self_pos`.
    pub fn can_see(&self, self_pos: &Position, position: &Position) -> (r: bool)
        ensures
            r == sees(*self, *self_pos, *position),
    {
        let range = self.view_range as u128;
        proof {
            assert(range * range <= u128::MAX) by (nonlinear_arith)
                requires
                    range <= usize::MAX,
            ;
        }
        self_pos.distance_squared_at_most(position, range * range)
    }
}

/// Sight is symmetric: whoever sees another at the same range is seen back.
pub proof fn lemma_can_see_symmetric(v: Vision, a: Position, b: Position)
    ensures
        sees(v, a, b) == sees(v, b, a),
{
    crate::models::lemma_distance_symmetric(a, b);
}

/// What an AI does on its turn.
#[derive(Debug, Clone, Copy, PartialEq, Eq, Structural)]
pub enum Action {
    GoTo(Position),
    Wait,
    Attack(Position),
}

/// The mood of an AI.
#[derive(Debug, Clone, Copy, PartialEq, Eq, Structural)]
pub enum AiState {
    Idling,
    Afraid,
    Angry,
}

impl Default for AiState {
    fn default() -> (r: AiState)
        ensures
            r == AiState::Idling,
    {
        AiState::Idling
    }
}

/// The decision state of one AI entity.
#[derive(Debug, Clone, Copy, PartialEq, Eq, Structural)]
pub struct Ai {
    pub curr_state: AiState,
}

impl Default for Ai {
    fn default() -> (r: Ai)
        ensures
            r.curr_state == AiState::Idling,
    {
        Ai { curr_state: AiState::Idling }
    }
}

/// One transition of the machine: the next state and the action, given the
/// current state, whether the player is in sight, whether health is below a
/// quarter, whether the player is adjacent (squared distance at most 2), the
/// player's position and the point to retreat to.
pub open spec fn transition(
    state: AiState,
    visible: bool,
    hurt: bool,
    adjacent: bool,
    player: Position,
    retreat: Position,
) -> (AiState, Action) {
    match state {
        AiState::Idling => if visible {
            (AiState::Angry, Action::GoTo(player))
        } else {
            (AiState::Idling, Action::Wait)
        },
        AiState::Afraid => if !visible {
            (AiState::Idling, Action::Wait)
        } else {
            (AiState::Afraid, Action::GoTo(retreat))
        },
        AiState::Angry => if !visible {
            (AiState::Idling, Action::Wait)
        } else if hurt {
            (AiState::Afraid, Action::GoTo(retreat))
        } else if adjacent {
            (AiState::Angry, Action::Attack(player))
        } else {
            (AiState::Angry, Action::GoTo(player))
        },
    }
}

/// The transition of an AI at `me` with health `h` and vision `v`, facing
/// the player at `player`, with `retreat` as its point of retreat.
pub open spec fn decide(
    state: AiState,
    player: Position,
    me: Position,
    h: Health,
    v: Vision,
    retreat: Position,
) -> (AiState, Action) {
    transition(
        state,
        sees(v, me, player),
        ratio_below_quarter(h),
        dist_sq(me, player) <= 2,
        player,
        retreat,
    )
}

impl Ai {
    /// Advances the state machine by one turn and returns the action to take.
    /// `retreat_pos` is where the AI heads when it flees; it is used only then.
    pub fn get_next_action(
        &mut self,
        player_pos: &Position,
        my_position: &Position,
        my_health: &Health,
        my_vision: &Vision,
        retreat_pos: &Position,
    ) -> (r: Action)
        ensures
            (final(self).curr_state, r) == decide(
                old(self).curr_state,
                *player_pos,
                *my_position,
                *my_health,
                *my_vision,
                *retreat_pos,
            ),
    {
        match self.curr_state {
            AiState::Idling => {
                if my_vision.can_see(my_position, player_pos) {
                    self.curr_state = AiState::Angry;
                    Action::GoTo(*player_pos)
                } else {
                    Action::Wait
                }
            },
            AiState::Afraid => {
                if !my_vision.can_see(my_position, player_pos) {
                    self.curr_state = AiState::Idling;
                    Action::Wait
                } else {
                    Action::GoTo(*retreat_pos)
                }
            },
            AiState::Angry => {
                if !my_vision.can_see(my_position, player_pos) {
                    self.curr_state = AiState::Idling;
                    Action::Wait
                } else if my_health.is_ratio_below_quarter() {
                    self.curr_state = AiState::Afraid;
                    Action::GoTo(*retreat_pos)
                } else if my_position.distance_squared_at_most(player_pos, 2) {
                    Action::Attack(*player_pos)
                } else {
                    Action::GoTo(*player_pos)
                }
            },
        }
    }
}

} // verus!
