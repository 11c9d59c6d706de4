//! The state machine of an enemy. Timers (attack cooldown, stagger duration)
//! are kept by the caller, who passes their outcome in.
use vstd::prelude::*;
use crate::dude::{Attack, DudeState, Stagger, StaggerState, StaggerProfile, spec_stagger_profile, spec_recover_state, spec_is_recovering};
use crate::animations::EnemyAnimations;

verus! {

/// The attack an enemy performs and its direction (of type `D`).
pub struct AttackHandler<D> {
    pub attack: Attack,
    pub attack_direction: D,
}

impl<D: Copy> AttackHandler<D> {
    pub fn attack(&self) -> (a: Attack)
        ensures
            a == self.attack,
    {
        self.attack
    }

    pub fn set_attack(&mut self, attack: Attack, attack_direction: D)
        ensures
            final(self).attack == attack,
            final(self).attack_direction == attack_direction,
    {
        self.attack = attack;
        self.attack_direction = attack_direction;
    }

    pub fn attack_direction(&self) -> (d: D)
        ensures
            d == self.attack_direction,
    {
        self.attack_direction
    }
}

/// What the stagger transition did.
#[derive(Clone, Copy, Debug, PartialEq, Eq, Structural)]
pub enum StaggerTransition {
    /// Nothing: no stagger was requested, or the state already changed this frame.
    Unchanged,
    /// The enemy was already staggering: its animation starts over.
    Replay,
    /// The enemy entered the staggering state.
    Entered,
}

/// The state machine of an enemy, with directions of type `D`.
pub struct EnemyStateMachine<D> {
    /// The state changed during the current frame (it changes at most once).
    pub just_changed: bool,
    pub state: DudeState,
    pub previous_state: DudeState,
    pub stagger: Stagger<D>,
    /// A state requested by another system (a hit), taken up by the transitions.
    pub new_state: Option<DudeState>,
    pub animation_state: EnemyAnimations,
    pub attack_handler: AttackHandler<D>,
}

impl<D: Copy> EnemyStateMachine<D> {
    /// The machine after asking to change to state `s`: nothing happens when
    /// the state already changed this frame.
    pub open spec fn after_set_state(m: Self, s: DudeState) -> Self {
        if m.just_changed {
            m
        } else {
            EnemyStateMachine { just_changed: true, previous_state: m.state, state: s, ..m }
        }
    }

    /// An idle enemy facing `direction`.
    pub fn new(direction: D) -> (m: Self)
        ensures
            !m.just_changed,
            m.state == DudeState::Idling,
            m.previous_state == DudeState::Idling,
            m.stagger.state == StaggerState::Normal,
            m.stagger.direction == direction,
            m.stagger.intensity == 0,
            m.new_state is None,
            m.animation_state == EnemyAnimations::Idle,
            m.attack_handler.attack == Attack::Light1,
            m.attack_handler.attack_direction == direction,
    {
        EnemyStateMachine {
            just_changed: false,
            state: DudeState::Idling,
            previous_state: DudeState::Idling,
            stagger: Stagger::new(direction),
            new_state: None,
            animation_state: EnemyAnimations::Idle,
            attack_handler: AttackHandler { attack: Attack::Light1, attack_direction: direction },
        }
    }

    pub fn state(&self) -> (s: DudeState)
        ensures
            s == self.state,
    {
        self.state
    }

    /// Change the state, unless it already changed this frame.
    pub fn set_state(&mut self, state: DudeState)
        ensures
            *final(self) == Self::after_set_state(*old(self), state),
    {
        if self.just_changed {
            return;
        }
        self.set_just_changed(true);
        self.previous_state = self.state;
        self.state = state;
    }

    /// Only an idle or running enemy starts an attack.
    pub fn can_attack(&self) -> (b: bool)
        ensures
            b == (self.state == DudeState::Idling || self.state == DudeState::Running),
    {
        self.state() == DudeState::Idling || self.state() == DudeState::Running
    }

    pub fn new_state(&self) -> (s: Option<DudeState>)
        ensures
            s == self.new_state,
    {
        self.new_state
    }

    /// Request a state change; the first request of a frame wins.
    pub fn set_new_state(&mut self, new_state: DudeState)
        ensures
            final(self).new_state == (if old(self).new_state is Some {
                old(self).new_state
            } else {
                Some(new_state)
            }),
            *final(self) == (EnemyStateMachine { new_state: final(self).new_state, ..*old(self) }),
    {
        if self.new_state.is_some() {
            return;
        }
        self.new_state = Some(new_state);
    }

    pub fn reset_new_state(&mut self)
        ensures
            *final(self) == (EnemyStateMachine { new_state: None, ..*old(self) }),
    {
        self.new_state = None;
    }

    pub fn animation_state(&self) -> (a: EnemyAnimations)
        ensures
            a == self.animation_state,
    {
        self.animation_state
    }

    pub fn set_animation_state(&mut self, animation_state: EnemyAnimations)
        ensures
            *final(self) == (EnemyStateMachine { animation_state, ..*old(self) }),
    {
        self.animation_state = animation_state;
    }

    pub fn attack(&self) -> (a: Attack)
        ensures
            a == self.attack_handler.attack,
    {
        self.attack_handler.attack()
    }

    /// The enemy is performing `attack`.
    pub fn attack_eq(&self, attack: Attack) -> (b: bool)
        ensures
            b == (self.state == DudeState::Attacking && self.attack_handler.attack == attack),
    {
        self.state == DudeState::Attacking && self.attack() == attack
    }

    /// Start an attack (the state becomes attacking), unless the state already
    /// changed this frame.
    pub fn set_attack(&mut self, attack: Attack, attack_direction: D)
        ensures
            old(self).just_changed ==> *final(self) == *old(self),
            !old(self).just_changed ==> *final(self) == (EnemyStateMachine {
                just_changed: true,
                previous_state: old(self).state,
                state: DudeState::Attacking,
                attack_handler: AttackHandler { attack, attack_direction },
                ..*old(self)
            }),
    {
        if self.just_changed {
            return;
        }
        self.set_state(DudeState::Attacking);
        self.attack_handler.set_attack(attack, attack_direction);
    }

    pub fn attack_direction(&self) -> (d: D)
        ensures
            d == self.attack_handler.attack_direction,
    {
        self.attack_handler.attack_direction()
    }

    pub fn just_changed(&self) -> (b: bool)
        ensures
            b == self.just_changed,
    {
        self.just_changed
    }

    pub fn set_just_changed(&mut self, just_changed: bool)
        ensures
            *final(self) == (EnemyStateMachine { just_changed, ..*old(self) }),
    {
        self.just_changed = just_changed;
    }

    /// The direction and the intensity of the stagger push.
    pub fn stagger_linvel(&self) -> (r: (D, u32))
        ensures
            r == (self.stagger.direction, self.stagger.intensity),
    {
        (self.stagger.direction, self.stagger.intensity)
    }

    /// Request staggering from a hit by `attack` pushing along `direction`.
    /// Returns the stagger profile (its duration is for the stagger timer).
    pub fn set_stagger_state(&mut self, attack: Attack, direction: D) -> (p: StaggerProfile)
        ensures
            p == spec_stagger_profile(attack),
            final(self).new_state == (if old(self).new_state is Some {
                old(self).new_state
            } else {
                Some(DudeState::Staggering)
            }),
            final(self).stagger.state == p.state,
            final(self).stagger.direction == direction,
            final(self).stagger.intensity == p.intensity,
            *final(self) == (EnemyStateMachine { new_state: final(self).new_state, stagger: final(self).stagger, ..*old(self) }),
    {
        self.set_new_state(DudeState::Staggering);
        self.stagger.stagger_from_attack(attack, direction)
    }

    /// Request a stance break (after a successful parry by the player), with
    /// no push along `direction`. Returns its duration in milliseconds.
    pub fn set_stagger_stance_break_state(&mut self, direction: D) -> (duration_millis: u32)
        ensures
            duration_millis == 500,
            final(self).new_state == (if old(self).new_state is Some {
                old(self).new_state
            } else {
                Some(DudeState::Staggering)
            }),
            final(self).stagger.state == StaggerState::StanceBreak,
            final(self).stagger.direction == direction,
            final(self).stagger.intensity == 0,
            *final(self) == (EnemyStateMachine { new_state: final(self).new_state, stagger: final(self).stagger, ..*old(self) }),
    {
        self.set_new_state(DudeState::Staggering);
        self.stagger.new_state(StaggerState::StanceBreak, direction, 0);
        500
    }

    pub fn stagger_state(&self) -> (s: StaggerState)
        ensures
            s == self.stagger.state,
    {
        self.stagger.state()
    }

    pub fn set_stagger_state_recover(&mut self)
        ensures
            final(self).stagger.state == spec_recover_state(old(self).stagger.state),
            final(self).stagger.direction == old(self).stagger.direction,
            final(self).stagger.intensity == old(self).stagger.intensity,
            *final(self) == (EnemyStateMachine { stagger: final(self).stagger, ..*old(self) }),
    {
        self.stagger.set_recover_state();
    }

    /// Take up a requested stagger: an enemy that is already staggering starts
    /// its animation over, another one enters the staggering state. The caller
    /// resets the attack timer unless the result is `Unchanged`.
    pub fn transition_stagger(&mut self) -> (r: StaggerTransition)
        ensures
            old(self).just_changed || old(self).new_state != Some(DudeState::Staggering) ==> r
                == StaggerTransition::Unchanged && *final(self) == *old(self),
            !old(self).just_changed && old(self).new_state == Some(DudeState::Staggering) ==> (if old(
                self,
            ).state == DudeState::Staggering {
                r == StaggerTransition::Replay && *final(self) == *old(self)
            } else {
                r == StaggerTransition::Entered && *final(self) == Self::after_set_state(
                    *old(self),
                    DudeState::Staggering,
                )
            }),
    {
        if self.just_changed() {
            return StaggerTransition::Unchanged;
        }
        match self.new_state() {
            Some(DudeState::Staggering) => {},
            _ => {
                return StaggerTransition::Unchanged;
            },
        }
        if self.state() == DudeState::Staggering {
            StaggerTransition::Replay
        } else {
            self.set_state(DudeState::Staggering);
            StaggerTransition::Entered
        }
    }

    /// Attack the target with a light attack along `direction` when the enemy
    /// can attack, its attack timer has finished and the target is in reach.
    pub fn transition_attack(&mut self, attack_timer_finished: bool, target_in_reach: bool, direction: D)
        ensures
            (old(self).can_attack_spec() && attack_timer_finished && target_in_reach && !old(self).just_changed) ==> *final(self) == (EnemyStateMachine {
                just_changed: true,
                previous_state: old(self).state,
                state: DudeState::Attacking,
                attack_handler: AttackHandler { attack: Attack::Light1, attack_direction: direction },
                ..*old(self)
            }),
            !(old(self).can_attack_spec() && attack_timer_finished && target_in_reach && !old(self).just_changed) ==> *final(self) == *old(self),
    {
        if !self.can_attack() || !attack_timer_finished || !target_in_reach {
            return;
        }
        self.set_attack(Attack::Light1, direction);
    }

    /// The enemy is idle or running.
    pub open spec fn can_attack_spec(&self) -> bool {
        self.state == DudeState::Idling || self.state == DudeState::Running
    }

    /// An idle enemy with a target closer than the chase distance starts stalking.
    pub fn transition_stalking(&mut self, has_target: bool, target_close: bool)
        ensures
            *final(self) == (if !old(self).just_changed && has_target && old(self).state
                == DudeState::Idling && target_close {
                Self::after_set_state(*old(self), DudeState::Stalking)
            } else {
                *old(self)
            }),
    {
        if self.just_changed() || !has_target || self.state() != DudeState::Idling {
            return;
        }
        if target_close {
            self.set_state(DudeState::Stalking);
        }
    }

    /// An idle or stalking enemy with a target beyond the chase distance runs.
    pub fn transition_run(&mut self, has_target: bool, target_far: bool)
        ensures
            *final(self) == (if !old(self).just_changed && has_target && (old(self).state
                == DudeState::Idling || old(self).state == DudeState::Stalking) && target_far {
                Self::after_set_state(*old(self), DudeState::Running)
            } else {
                *old(self)
            }),
    {
        if self.just_changed() || !has_target {
            return;
        }
        if self.state() != DudeState::Idling && self.state() != DudeState::Stalking {
            return;
        }
        if target_far {
            self.set_state(DudeState::Running);
        }
    }

    /// The state an enemy falls back to at the end of its current activity,
    /// if any.
    pub open spec fn idle_target(m: Self, has_target: bool, animation_finished: bool, stagger_finished: bool) -> Option<DudeState> {
        match m.state {
            DudeState::Running | DudeState::Stalking => if !has_target { Some(DudeState::Idling) } else { None },
            DudeState::Attacking => if animation_finished { Some(DudeState::Recovering) } else { None },
            DudeState::Recovering => if animation_finished { Some(DudeState::Stalking) } else { None },
            DudeState::Staggering => if spec_is_recovering(m.stagger.state) && animation_finished { Some(DudeState::Stalking) } else { None },
            _ => None,
        }
    }

    /// End the current activity: a runner or stalker without a target idles,
    /// a finished attack recovers, a finished recovery stalks, a finished
    /// stagger recovers and a finished stagger recovery stalks. Returns
    /// whether the caller must reset the attack timer (after a recovery).
    pub fn transition_idle(&mut self, has_target: bool, animation_finished: bool, stagger_finished: bool) -> (reset_attack_timer: bool)
        ensures
            old(self).just_changed ==> *final(self) == *old(self) && !reset_attack_timer,
            !old(self).just_changed ==> {
                let t = Self::idle_target(*old(self), has_target, animation_finished, stagger_finished);
                &&& reset_attack_timer == (old(self).state == DudeState::Recovering && animation_finished)
                &&& (t matches Some(s) ==> *final(self) == Self::after_set_state(*old(self), s))
                &&& (t is None && old(self).state == DudeState::Staggering && !spec_is_recovering(old(self).stagger.state) && stagger_finished ==> *final(self) == (EnemyStateMachine { stagger: Stagger { state: spec_recover_state(old(self).stagger.state), ..old(self).stagger }, ..*old(self) }))
                &&& (t is None && !(old(self).state == DudeState::Staggering && !spec_is_recovering(old(self).stagger.state) && stagger_finished) ==> *final(self) == *old(self))
            },
    {
        if self.just_changed() {
            return false;
        }
        match self.state() {
            DudeState::Running | DudeState::Stalking => {
                if !has_target {
                    self.set_state(DudeState::Idling);
                }
                false
            },
            DudeState::Attacking => {
                if animation_finished {
                    self.set_state(DudeState::Recovering);
                }
                false
            },
            DudeState::Recovering => {
                if animation_finished {
                    self.set_state(DudeState::Stalking);
                    true
                } else {
                    false
                }
            },
            DudeState::Staggering => {
                if self.stagger_state().is_recovering() {
                    if animation_finished {
                        self.set_state(DudeState::Stalking);
                    }
                } else if stagger_finished {
                    self.set_stagger_state_recover();
                }
                false
            },
            _ => false,
        }
    }
}

/// At most one state change per frame: once the state changed, further
/// requests leave the machine as it is until the flag is reset.
pub proof fn lemma_enemy_one_change_per_frame<D: Copy>(m: EnemyStateMachine<D>, s1: DudeState, s2: DudeState)
    ensures
        EnemyStateMachine::<D>::after_set_state(EnemyStateMachine::<D>::after_set_state(m, s1), s2)
            == EnemyStateMachine::<D>::after_set_state(m, s1),
        !m.just_changed ==> EnemyStateMachine::<D>::after_set_state(m, s1).state == s1
            && EnemyStateMachine::<D>::after_set_state(m, s1).previous_state == m.state,
{
}

/// How fast an enemy closes in on its target, in eighths of its full
/// speed, by its rank among the enemies after the same target (0 is the
/// nearest): the nearest at full speed, each further one an eighth slower,
/// down to half speed from the fifth on. An enemy without a rank moves at
/// full speed.
pub fn crowd_speed_eighths(rank: Option<usize>) -> (e: u32)
    ensures
        e == match rank {
            None => 8int,
            Some(i) => if i < 4 {
                8 - i
            } else {
                4
            },
        },
{
    match rank {
        None => 8,
        Some(i) => if i < 4 {
            8 - i as u32
        } else {
            4
        },
    }
}

/// Where an enemy goes when its current activity ends: an attacking enemy
/// whose attack animation finished recovers, and only a finished recovery
/// (of an attack or of a stagger) leads to stalking; an unfinished attack or
/// recovery goes on.
pub proof fn lemma_enemy_activity_end<D: Copy>(
    m: EnemyStateMachine<D>,
    has_target: bool,
    animation_finished: bool,
    stagger_finished: bool,
)
    ensures
        m.state == DudeState::Attacking && animation_finished ==> EnemyStateMachine::<D>::idle_target(
            m,
            has_target,
            animation_finished,
            stagger_finished,
        ) == Some(DudeState::Recovering),
        EnemyStateMachine::<D>::idle_target(m, has_target, animation_finished, stagger_finished)
            == Some(DudeState::Stalking) ==> animation_finished && (m.state == DudeState::Recovering || (
        m.state == DudeState::Staggering && spec_is_recovering(m.stagger.state))),
        m.state == DudeState::Recovering && animation_finished ==> EnemyStateMachine::<D>::idle_target(
            m,
            has_target,
            animation_finished,
            stagger_finished,
        ) == Some(DudeState::Stalking),
        (m.state == DudeState::Attacking || m.state == DudeState::Recovering) && !animation_finished
            ==> EnemyStateMachine::<D>::idle_target(m, has_target, animation_finished, stagger_finished)
            is None,
        !m.just_changed ==> EnemyStateMachine::<D>::after_set_state(m, DudeState::Recovering).state
            == DudeState::Recovering,
{
}

} // verus!
