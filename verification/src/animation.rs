//! Short real-time animations: queued state transitions that fire after a
//! remaining delay and mutate the store when they do.

use vstd::prelude::*;
use crate::geom::CardinalDirection;
use crate::world::EntityId;
use crate::world::World;
use crate::world::WorldV;

verus! {

/// Milliseconds between the start of a damage recoil and the moment the
/// damage is applied.
pub const DAMAGE_ANIMATION_PERIOD_MS: u64 = 250;

/// The two phases of a damage effect: first the recoil marker is set, then
/// after a fixed delay the marker is cleared and the damage applied.
#[derive(Clone, Copy, Debug, PartialEq, Eq, Structural)]
pub enum AnimationState {
    DamageStart { id: EntityId, direction: CardinalDirection },
    DamageEnd { id: EntityId },
}

/// A queued state transition scheduled to fire once `next_update_in_ms` of
/// real time has elapsed.
#[derive(Clone, Copy, Debug, PartialEq, Eq, Structural)]
pub struct Animation {
    pub next_update_in_ms: u64,
    pub state: AnimationState,
}

impl AnimationState {
    /// The id this phase concerns.
    pub open spec fn target_id(self) -> EntityId {
        match self {
            AnimationState::DamageStart { id, .. } => id,
            AnimationState::DamageEnd { id } => id,
        }
    }

    /// The store after this phase fires.
    pub open spec fn update_spec(self, w: WorldV) -> WorldV {
        match self {
            AnimationState::DamageStart { id, direction } => w.set_damage_dir_spec(
                id,
                Some(direction),
            ),
            AnimationState::DamageEnd { id } => w.set_damage_dir_spec(id, None).deal_damage_spec(
                id,
                1,
            ),
        }
    }

    /// The follow-up animation this phase queues, if any.
    pub open spec fn follow_up_spec(self) -> Option<Animation> {
        match self {
            AnimationState::DamageStart { id, .. } => Some(
                Animation {
                    next_update_in_ms: DAMAGE_ANIMATION_PERIOD_MS,
                    state: AnimationState::DamageEnd { id },
                },
            ),
            AnimationState::DamageEnd { .. } => None,
        }
    }

    /// Fires this phase: mutates the store and hands back the follow-up
    /// phase, if any.
    pub fn update(self, world: &mut World) -> (r: Option<Animation>)
        requires
            old(world)@.wf(),
            old(world)@.valid_id(self.target_id()),
        ensures
            final(world)@.wf(),
            final(world)@ == self.update_spec(old(world)@),
            r == self.follow_up_spec(),
    {
        match self {
            AnimationState::DamageStart { id, direction } => {
                world.set_taking_damage_in_direction(id, Some(direction));
                Some(
                    Animation {
                        next_update_in_ms: DAMAGE_ANIMATION_PERIOD_MS,
                        state: AnimationState::DamageEnd { id },
                    },
                )
            },
            AnimationState::DamageEnd { id } => {
                world.set_taking_damage_in_direction(id, None);
                world.deal_damage(id, 1);
                None
            },
        }
    }
}

impl Animation {
    /// An animation that fires `next_update_in_ms` milliseconds from now.
    pub fn new(next_update_in_ms: u64, state: AnimationState) -> (r: Animation)
        ensures
            r == (Animation { next_update_in_ms, state }),
    {
        Animation { next_update_in_ms, state }
    }

    /// The start of a two-phase damage effect against `id`, firing
    /// immediately.
    pub open spec fn damage_spec(id: EntityId, direction: CardinalDirection) -> Animation {
        Animation {
            next_update_in_ms: 0,
            state: AnimationState::DamageStart { id, direction },
        }
    }

    pub fn damage(id: EntityId, direction: CardinalDirection) -> (r: Animation)
        ensures
            r == Animation::damage_spec(id, direction),
    {
        Animation {
            next_update_in_ms: 0,
            state: AnimationState::DamageStart { id, direction },
        }
    }

    /// The resolution of advancing this animation by `period_ms`: either it
    /// fires (store mutated, optional follow-up) or its remaining delay
    /// shrinks and the store is untouched.
    pub open spec fn tick_spec(self, period_ms: u64, w: WorldV) -> (WorldV, Option<Animation>) {
        if period_ms >= self.next_update_in_ms {
            (self.state.update_spec(w), self.state.follow_up_spec())
        } else {
            (
                w,
                Some(
                    Animation {
                        next_update_in_ms: (self.next_update_in_ms - period_ms) as u64,
                        state: self.state,
                    },
                ),
            )
        }
    }

    /// Advances this animation by `period_ms` of elapsed real time.
    pub fn tick(self, period_ms: u64, world: &mut World) -> (r: Option<Animation>)
        requires
            old(world)@.wf(),
            old(world)@.valid_id(self.state.target_id()),
        ensures
            final(world)@.wf(),
            final(world)@ == self.tick_spec(period_ms, old(world)@).0,
            r == self.tick_spec(period_ms, old(world)@).1,
    {
        if period_ms >= self.next_update_in_ms {
            self.state.update(world)
        } else {
            Some(
                Animation {
                    next_update_in_ms: self.next_update_in_ms - period_ms,
                    state: self.state,
                },
            )
        }
    }
}

} // verus!
