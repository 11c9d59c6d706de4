//! The state machine of the player: attack combos with a chain buffer,
//! parries and staggers. Timers (chain buffer, dash, stagger, jump) are kept
//! by the caller, who passes their outcome in.
use vstd::prelude::*;
use crate::dude::{Attack, AttackForm, DudeState, ParryState, Stagger, StaggerState, spec_combo_attack, spec_default_attack, spec_recover_state, spec_is_recovering};
use crate::animations::PlayerAnimations;
use crate::enemy_state::StaggerTransition;

verus! {

/// The attack of the player and what a following input chains to.
pub struct AttackHandler<D> {
    pub attack: Attack,
    pub attack_direction: D,
    /// An attack input made during the current attack, started when it ends.
    pub chained_attack: AttackForm,
    /// A following input continues the combo (until the chain buffer runs out).
    pub chainable: bool,
    /// The player may still move during the attack (until its hitbox appears).
    pub can_move: bool,
    /// A direction given during an attack, taken up by the next chained attack.
    pub cached_attack_direction: Option<D>,
}

impl<D: Copy> AttackHandler<D> {
    /// No attack chained, not chainable, free to move.
    pub fn new(direction: D) -> (h: Self)
        ensures
            h.attack == Attack::Light1,
            h.attack_direction == direction,
            h.chained_attack == AttackForm::Nothing,
            !h.chainable,
            h.can_move,
            h.cached_attack_direction is None,
    {
        AttackHandler {
            attack: Attack::Light1,
            attack_direction: direction,
            chained_attack: AttackForm::Nothing,
            chainable: false,
            can_move: true,
            cached_attack_direction: None,
        }
    }

    pub fn attack(&self) -> (a: Attack)
        ensures
            a == self.attack,
    {
        self.attack
    }

    pub fn set_attack(&mut self, attack: Attack)
        ensures
            *final(self) == (AttackHandler { attack, ..*old(self) }),
    {
        self.attack = attack;
    }

    pub fn attack_direction(&self) -> (d: D)
        ensures
            d == self.attack_direction,
    {
        self.attack_direction
    }

    pub fn set_attack_direction(&mut self, direction: D)
        ensures
            *final(self) == (AttackHandler { attack_direction: direction, ..*old(self) }),
    {
        self.attack_direction = direction;
    }

    pub fn set_cached_attack_direction(&mut self, direction: D)
        ensures
            *final(self) == (AttackHandler { cached_attack_direction: Some(direction), ..*old(self) }),
    {
        self.cached_attack_direction = Some(direction);
    }

    /// Take up the direction given during the attack, if any.
    pub fn exhaust_cached_attack_direction(&mut self)
        ensures
            *final(self) == (match old(self).cached_attack_direction {
                Some(d) => AttackHandler { attack_direction: d, cached_attack_direction: None, ..*old(self) },
                None => *old(self),
            }),
    {
        match self.cached_attack_direction {
            Some(d) => {
                self.attack_direction = d;
                self.cached_attack_direction = None;
            },
            None => {},
        }
    }

    pub fn chained_attack(&self) -> (f: AttackForm)
        ensures
            f == self.chained_attack,
    {
        self.chained_attack
    }

    pub fn set_chained_attack(&mut self, chained_attack: AttackForm)
        ensures
            *final(self) == (AttackHandler { chained_attack, ..*old(self) }),
    {
        self.chained_attack = chained_attack;
    }

    pub fn chainable(&self) -> (b: bool)
        ensures
            b == self.chainable,
    {
        self.chainable
    }

    /// Set whether a following input continues the combo (the caller pauses
    /// the chain buffer timer).
    pub fn set_chainable(&mut self, chainable: bool)
        ensures
            *final(self) == (AttackHandler { chainable, ..*old(self) }),
    {
        self.chainable = chainable;
    }

    pub fn can_move(&self) -> (b: bool)
        ensures
            b == self.can_move,
    {
        self.can_move
    }

    pub fn set_can_move(&mut self, can_move: bool)
        ensures
            *final(self) == (AttackHandler { can_move, ..*old(self) }),
    {
        self.can_move = can_move;
    }

    /// When the chain buffer timer has just run out, the combo can no longer
    /// be continued.
    pub fn handle_attack_chain_timer(&mut self, timer_just_finished: bool)
        ensures
            *final(self) == (if timer_just_finished {
                AttackHandler { chainable: false, ..*old(self) }
            } else {
                *old(self)
            }),
    {
        if timer_just_finished {
            self.chainable = false;
        }
    }
}

/// What a hit by an enemy did to the player.
#[derive(Clone, Copy, Debug, PartialEq, Eq, Structural)]
pub enum HitOutcome {
    /// A dashing player cannot be hit.
    Ignored,
    /// The hit met a parry, which succeeded.
    Parried,
    /// The player is staggered for the given time (and loses health).
    Staggered { duration_millis: u32 },
}

/// The state machine of the player, with directions of type `D`.
pub struct PlayerStateMachine<D> {
    /// The state changed during the current frame (it changes at most once).
    pub just_changed: bool,
    pub state: DudeState,
    pub previous_state: DudeState,
    pub stagger: Stagger<D>,
    /// A state requested by another system (a hit), taken up by the transitions.
    pub new_state: Option<DudeState>,
    pub attack_handler: AttackHandler<D>,
    pub animation_state: PlayerAnimations,
}

/// A jumping attack.
pub open spec fn is_jump_attack(a: Attack) -> bool {
    a == Attack::Dropkick || a == Attack::Hammerfist
}

impl<D: Copy> PlayerStateMachine<D> {
    /// The player may move (and start running): idle, running, recovering
    /// from a ground attack, after a successful parry, or recovering from a
    /// stagger.
    pub open spec fn spec_can_run(&self) -> bool {
        self.state == DudeState::Idling || self.state == DudeState::Running || (self.state
            == DudeState::Recovering && !is_jump_attack(self.attack_handler.attack)) || self.state
            == DudeState::Parrying(ParryState::Success) || (self.state == DudeState::Staggering
            && spec_is_recovering(self.stagger.state))
    }

    /// The player may attack: whenever it may run, and during a ground attack.
    pub open spec fn spec_can_attack(&self) -> bool {
        self.spec_can_run() || (self.state == DudeState::Attacking && !is_jump_attack(
            self.attack_handler.attack,
        ))
    }

    /// The machine after asking to change to state `s`: nothing happens when
    /// the state already changed this frame; otherwise the player may move again.
    pub open spec fn after_set_state(m: Self, s: DudeState) -> Self {
        if m.just_changed {
            m
        } else {
            PlayerStateMachine {
                just_changed: true,
                previous_state: m.state,
                state: s,
                attack_handler: AttackHandler { can_move: true, ..m.attack_handler },
                ..m
            }
        }
    }

    /// The machine after starting attack `a`: the state becomes attacking and
    /// a following input may continue the combo.
    pub open spec fn after_set_attack(m: Self, a: Attack) -> Self {
        if m.just_changed {
            m
        } else {
            PlayerStateMachine {
                just_changed: true,
                previous_state: m.state,
                state: DudeState::Attacking,
                attack_handler: AttackHandler { can_move: true, attack: a, chainable: true, ..m.attack_handler },
                ..m
            }
        }
    }

    /// The machine after starting the default attack of `form`, if any.
    pub open spec fn after_default_attack(m: Self, form: AttackForm) -> Self {
        match spec_default_attack(form) {
            Some(a) => Self::after_set_attack(m, a),
            None => m,
        }
    }

    /// An idle player facing `direction`.
    pub fn new(direction: D) -> (m: Self)
        ensures
            !m.just_changed,
            m.state == DudeState::Idling,
            m.previous_state == DudeState::Idling,
            m.stagger.state == StaggerState::Normal,
            m.stagger.direction == direction,
            m.stagger.intensity == 0,
            m.new_state is None,
            m.attack_handler == (AttackHandler::<D> {
                attack: Attack::Light1,
                attack_direction: direction,
                chained_attack: AttackForm::Nothing,
                chainable: false,
                can_move: true,
                cached_attack_direction: None,
            }),
            m.animation_state == PlayerAnimations::Idle,
    {
        PlayerStateMachine {
            just_changed: false,
            state: DudeState::Idling,
            previous_state: DudeState::Idling,
            stagger: Stagger::new(direction),
            new_state: None,
            attack_handler: AttackHandler::new(direction),
            animation_state: PlayerAnimations::Idle,
        }
    }

    pub fn can_run(&self) -> (b: bool)
        ensures
            b == self.spec_can_run(),
    {
        self.state == DudeState::Idling || self.state == DudeState::Running || (self.state
            == DudeState::Recovering && (self.attack() != Attack::Dropkick && self.attack()
            != Attack::Hammerfist)) || self.state == DudeState::Parrying(ParryState::Success) || (
        self.state == DudeState::Staggering && self.stagger.state().is_recovering())
    }

    pub fn can_attack(&self) -> (b: bool)
        ensures
            b == self.spec_can_attack(),
    {
        self.can_run() || (self.state == DudeState::Attacking && self.attack() != Attack::Dropkick
            && self.attack() != Attack::Hammerfist)
    }

    /// The player may turn: neither attacking, recovering nor dying.
    pub fn can_change_direction(&self) -> (b: bool)
        ensures
            b == (self.state != DudeState::Attacking && self.state != DudeState::Recovering
                && self.state != DudeState::Dying),
    {
        self.state != DudeState::Attacking && self.state != DudeState::Recovering && self.state
            != DudeState::Dying
    }

    pub fn previous_state(&self) -> (s: DudeState)
        ensures
            s == self.previous_state,
    {
        self.previous_state
    }

    pub fn state(&self) -> (s: DudeState)
        ensures
            s == self.state,
    {
        self.state
    }

    /// Change the state, unless it already changed this frame.
    pub fn set_state(&mut self, state: DudeState)
        ensures
            *final(self) == Self::after_set_state(*old(self), state),
    {
        if self.just_changed {
            return;
        }
        self.set_just_changed(true);
        self.previous_state = self.state;
        self.state = state;
        self.attack_handler.set_can_move(true);
    }

    pub fn new_state(&self) -> (s: Option<DudeState>)
        ensures
            s == self.new_state,
    {
        self.new_state
    }

    /// Request the staggering state; the first request of a frame wins. Only
    /// staggering is ever requested this way.
    pub fn set_new_state(&mut self, new_state: DudeState)
        requires
            new_state == DudeState::Staggering,
        ensures
            *final(self) == (if old(self).new_state is Some {
                *old(self)
            } else {
                PlayerStateMachine { new_state: Some(new_state), ..*old(self) }
            }),
    {
        if self.new_state.is_some() {
            return;
        }
        self.new_state = Some(new_state);
    }

    pub fn reset_new_state(&mut self)
        ensures
            *final(self) == (PlayerStateMachine { new_state: None, ..*old(self) }),
    {
        self.new_state = None;
    }

    pub fn animation_state(&self) -> (a: PlayerAnimations)
        ensures
            a == self.animation_state,
    {
        self.animation_state
    }

    pub fn set_animation_state(&mut self, animation_state: PlayerAnimations)
        ensures
            *final(self) == (PlayerStateMachine { animation_state, ..*old(self) }),
    {
        self.animation_state = animation_state;
    }

    pub fn attack(&self) -> (a: Attack)
        ensures
            a == self.attack_handler.attack,
    {
        self.attack_handler.attack()
    }

    /// The player is performing `attack`.
    pub fn attack_eq(&self, attack: Attack) -> (b: bool)
        ensures
            b == (self.state == DudeState::Attacking && self.attack_handler.attack == attack),
    {
        self.state == DudeState::Attacking && self.attack() == attack
    }

    /// Start `attack` (the state becomes attacking and the combo chainable),
    /// unless the state already changed this frame. Returns whether it
    /// started (the caller then pauses the chain buffer timer).
    pub fn set_attack(&mut self, attack: Attack) -> (started: bool)
        ensures
            started == !old(self).just_changed,
            *final(self) == Self::after_set_attack(*old(self), attack),
    {
        if self.just_changed {
            return false;
        }
        self.set_state(DudeState::Attacking);
        self.attack_handler.set_attack(attack);
        self.attack_handler.set_chainable(true);
        true
    }

    pub fn attack_direction(&self) -> (d: D)
        ensures
            d == self.attack_handler.attack_direction,
    {
        self.attack_handler.attack_direction()
    }

    /// Aim the attacks along `direction` (a non-zero direction: the caller
    /// drops zero ones). During an attack the direction is kept for the next
    /// chained attack.
    pub fn set_attack_direction(&mut self, direction: D)
        ensures
            old(self).state == DudeState::Attacking ==> *final(self) == (PlayerStateMachine {
                attack_handler: AttackHandler { cached_attack_direction: Some(direction), ..old(self).attack_handler },
                ..*old(self)
            }),
            old(self).state != DudeState::Attacking ==> *final(self) == (PlayerStateMachine {
                attack_handler: AttackHandler { attack_direction: direction, ..old(self).attack_handler },
                ..*old(self)
            }),
    {
        if self.state() == DudeState::Attacking {
            self.attack_handler.set_cached_attack_direction(direction);
        } else {
            self.attack_handler.set_attack_direction(direction);
        }
    }

    pub fn chained_attack(&self) -> (f: AttackForm)
        ensures
            f == self.attack_handler.chained_attack,
    {
        self.attack_handler.chained_attack()
    }

    pub fn set_chained_attack(&mut self, chained_attack: AttackForm)
        ensures
            *final(self) == (PlayerStateMachine {
                attack_handler: AttackHandler { chained_attack, ..old(self).attack_handler },
                ..*old(self)
            }),
    {
        self.attack_handler.set_chained_attack(chained_attack);
    }

    pub fn just_changed(&self) -> (b: bool)
        ensures
            b == self.just_changed,
    {
        self.just_changed
    }

    pub fn set_just_changed(&mut self, just_changed: bool)
        ensures
            *final(self) == (PlayerStateMachine { just_changed, ..*old(self) }),
    {
        self.just_changed = just_changed;
    }

    /// When the chain buffer timer has just run out the combo ends.
    pub fn handle_attack_chain_timer(&mut self, timer_just_finished: bool)
        ensures
            *final(self) == (if timer_just_finished {
                PlayerStateMachine {
                    attack_handler: AttackHandler { chainable: false, ..old(self).attack_handler },
                    ..*old(self)
                }
            } else {
                *old(self)
            }),
    {
        self.attack_handler.handle_attack_chain_timer(timer_just_finished);
    }

    /// Start the default attack of `attack_form`, if it has one. Returns
    /// whether an attack started.
    pub fn set_default_attack(&mut self, attack_form: AttackForm) -> (started: bool)
        ensures
            started == (spec_default_attack(attack_form) is Some && !old(self).just_changed),
            *final(self) == Self::after_default_attack(*old(self), attack_form),
    {
        if let Some(attack) = attack_form.to_default_attack() {
            self.set_attack(attack)
        } else {
            false
        }
    }

    /// The attack that `attack_form` continues the combo with.
    pub fn combo_attack(&self, attack_form: AttackForm) -> (a: Option<Attack>)
        ensures
            a == spec_combo_attack(self.attack_handler.attack, attack_form),
    {
        self.attack().to_combo_attack(attack_form)
    }

    /// The state after an attack with nothing chained: recovering when
    /// standing still or after a jumping attack, else running.
    pub open spec fn terminal_state(m: Self, move_is_zero: bool) -> DudeState {
        if move_is_zero || is_jump_attack(m.attack_handler.attack) {
            DudeState::Recovering
        } else {
            DudeState::Running
        }
    }

    /// The machine after its attack animation ended.
    pub open spec fn after_chain_attack(m: Self, move_is_zero: bool) -> Self {
        let terminal = Self::terminal_state(m, move_is_zero);
        if m.attack_handler.chained_attack == AttackForm::Nothing {
            Self::after_set_state(m, terminal)
        } else {
            let next = match spec_combo_attack(m.attack_handler.attack, m.attack_handler.chained_attack) {
                Some(a) => {
                    let m1 = Self::after_set_attack(m, a);
                    let h = m1.attack_handler;
                    PlayerStateMachine {
                        attack_handler: match h.cached_attack_direction {
                            Some(d) => AttackHandler { attack_direction: d, cached_attack_direction: None, ..h },
                            None => h,
                        },
                        ..m1
                    }
                },
                None => Self::after_set_state(m, terminal),
            };
            PlayerStateMachine {
                attack_handler: AttackHandler { chained_attack: AttackForm::Nothing, ..next.attack_handler },
                ..next
            }
        }
    }

    /// When an attack animation ends: start the chained attack of the combo
    /// (aimed along a direction given meanwhile), or end the attack
    /// (recovering, or running when moving after a ground attack). Returns
    /// whether a chained attack started.
    pub fn transition_chain_attack(&mut self, move_is_zero: bool) -> (started: bool)
        ensures
            *final(self) == Self::after_chain_attack(*old(self), move_is_zero),
            started == (old(self).attack_handler.chained_attack != AttackForm::Nothing
                && spec_combo_attack(old(self).attack_handler.attack, old(self).attack_handler.chained_attack) is Some
                && !old(self).just_changed),
    {
        let terminal_state = if move_is_zero || self.attack() == Attack::Dropkick || self.attack()
            == Attack::Hammerfist {
            DudeState::Recovering
        } else {
            DudeState::Running
        };
        if self.chained_attack() == AttackForm::Nothing {
            self.set_state(terminal_state);
            return false;
        }
        let started = match self.combo_attack(self.chained_attack()) {
            Some(attack) => {
                let started = self.set_attack(attack);
                self.attack_handler.exhaust_cached_attack_direction();
                started
            },
            None => {
                self.set_state(terminal_state);
                false
            },
        };
        self.set_chained_attack(AttackForm::Nothing);
        started
    }

    /// The machine after an attack input.
    pub open spec fn after_attack_input(m: Self, form: AttackForm) -> Self {
        if m.state == DudeState::Attacking {
            PlayerStateMachine {
                attack_handler: AttackHandler { chained_attack: form, ..m.attack_handler },
                ..m
            }
        } else if m.attack_handler.chainable {
            match spec_combo_attack(m.attack_handler.attack, form) {
                Some(a) => Self::after_set_attack(m, a),
                None => Self::after_default_attack(m, form),
            }
        } else {
            Self::after_default_attack(m, form)
        }
    }

    /// An attack input: during an attack it is chained for later; within the
    /// chain buffer it continues the combo (or starts over with the default
    /// attack); otherwise it starts the default attack. Returns whether an
    /// attack started.
    pub fn transition_attack(&mut self, attack_form: AttackForm) -> (started: bool)
        requires
            old(self).state == DudeState::Attacking ==> attack_form != AttackForm::Nothing,
        ensures
            *final(self) == Self::after_attack_input(*old(self), attack_form),
            started == (old(self).state != DudeState::Attacking && !old(self).just_changed && (
                (old(self).attack_handler.chainable && spec_combo_attack(old(self).attack_handler.attack, attack_form) is Some)
                || spec_default_attack(attack_form) is Some)),
    {
        if self.state() == DudeState::Attacking {
            self.set_chained_attack(attack_form);
            false
        } else if self.attack_handler.chainable() {
            match self.combo_attack(attack_form) {
                Some(attack) => self.set_attack(attack),
                None => self.set_default_attack(attack_form),
            }
        } else {
            self.set_default_attack(attack_form)
        }
    }

    /// The direction and the intensity of the stagger push.
    pub fn stagger_linvel(&self) -> (r: (D, u32))
        ensures
            r == (self.stagger.direction, self.stagger.intensity),
    {
        (self.stagger.direction, self.stagger.intensity)
    }

    pub fn stagger_state(&self) -> (s: StaggerState)
        ensures
            s == self.stagger.state,
    {
        self.stagger.state()
    }

    /// Request staggering after a hit, pushed along `direction`: a normal
    /// stagger of intensity 150. Returns its duration in milliseconds.
    pub fn set_stagger_state(&mut self, direction: D) -> (duration_millis: u32)
        ensures
            duration_millis == 300,
            final(self).new_state == (if old(self).new_state is Some {
                old(self).new_state
            } else {
                Some(DudeState::Staggering)
            }),
            final(self).stagger == (Stagger { state: StaggerState::Normal, direction, intensity: 150u32 }),
            *final(self) == (PlayerStateMachine { new_state: final(self).new_state, stagger: final(self).stagger, ..*old(self) }),
    {
        self.set_new_state(DudeState::Staggering);
        self.stagger.new_state(StaggerState::Normal, direction, 150);
        300
    }

    pub fn set_stagger_state_recover(&mut self)
        ensures
            final(self).stagger.state == spec_recover_state(old(self).stagger.state),
            final(self).stagger.direction == old(self).stagger.direction,
            final(self).stagger.intensity == old(self).stagger.intensity,
            *final(self) == (PlayerStateMachine { stagger: final(self).stagger, ..*old(self) }),
    {
        self.stagger.set_recover_state();
    }

    /// True at the start of an attack, false once its hitbox appeared.
    pub fn can_move_during_attack(&self) -> (b: bool)
        ensures
            b == self.attack_handler.can_move,
    {
        self.attack_handler.can_move()
    }

    /// The machine once the hitbox of the attack appeared: the player may no
    /// longer move during this attack.
    pub open spec fn after_disable_move(m: Self) -> Self {
        PlayerStateMachine { attack_handler: AttackHandler { can_move: false, ..m.attack_handler }, ..m }
    }

    pub fn disable_can_move_during_attack(&mut self)
        ensures
            *final(self) == Self::after_disable_move(*old(self)),
    {
        self.attack_handler.set_can_move(false);
    }

    /// A hit by an enemy attacking along `direction`: a dashing player is not
    /// hit, a starting parry succeeds, anything else staggers the player.
    pub fn take_hit(&mut self, direction: D) -> (r: HitOutcome)
        ensures
            old(self).state == DudeState::Dashing ==> r == HitOutcome::Ignored && *final(self)
                == *old(self),
            old(self).state == DudeState::Parrying(ParryState::Start) ==> r == HitOutcome::Parried
                && *final(self) == Self::after_set_state(
                *old(self),
                DudeState::Parrying(ParryState::Success),
            ),
            old(self).state != DudeState::Dashing && old(self).state != DudeState::Parrying(
                ParryState::Start,
            ) ==> r == (HitOutcome::Staggered { duration_millis: 300 }) && *final(self) == (
            PlayerStateMachine {
                new_state: if old(self).new_state is Some {
                    old(self).new_state
                } else {
                    Some(DudeState::Staggering)
                },
                stagger: Stagger { state: StaggerState::Normal, direction, intensity: 150u32 },
                ..*old(self)
            }),
    {
        if self.state() == DudeState::Dashing {
            return HitOutcome::Ignored;
        }
        if self.state() == DudeState::Parrying(ParryState::Start) {
            self.set_state(DudeState::Parrying(ParryState::Success));
            return HitOutcome::Parried;
        }
        let duration_millis = self.set_stagger_state(direction);
        HitOutcome::Staggered { duration_millis }
    }

    /// The player turns towards its move input unless it is attacking or
    /// recovering (or not moving).
    pub fn turns_with_movement(&self, move_is_zero: bool) -> (b: bool)
        ensures
            b == (!move_is_zero && self.state != DudeState::Attacking && self.state
                != DudeState::Recovering),
    {
        !move_is_zero && self.state != DudeState::Attacking && self.state != DudeState::Recovering
    }

    /// The chain buffer timer starts when an attack has just ended.
    pub fn attack_chain_timer_starts(&self) -> (b: bool)
        ensures
            b == (self.just_changed && self.previous_state == DudeState::Attacking && self.state
                != DudeState::Attacking),
    {
        self.just_changed && self.previous_state == DudeState::Attacking && self.state
            != DudeState::Attacking
    }

    /// Take up a requested stagger: a player that is already staggering
    /// starts its animation over, another one enters the staggering state.
    pub fn transition_stagger(&mut self) -> (r: StaggerTransition)
        ensures
            old(self).just_changed || old(self).new_state != Some(DudeState::Staggering) ==> r
                == StaggerTransition::Unchanged && *final(self) == *old(self),
            !old(self).just_changed && old(self).new_state == Some(DudeState::Staggering) ==> (if old(
                self,
            ).state == DudeState::Staggering {
                r == StaggerTransition::Replay && *final(self) == *old(self)
            } else {
                r == StaggerTransition::Entered && *final(self) == Self::after_set_state(
                    *old(self),
                    DudeState::Staggering,
                )
            }),
    {
        if self.just_changed() {
            return StaggerTransition::Unchanged;
        }
        match self.new_state() {
            Some(DudeState::Staggering) => {},
            _ => {
                return StaggerTransition::Unchanged;
            },
        }
        if self.state() == DudeState::Staggering {
            StaggerTransition::Replay
        } else {
            self.set_state(DudeState::Staggering);
            StaggerTransition::Entered
        }
    }

    /// A parry input starts a parry whenever the player could run.
    pub fn transition_parry(&mut self, parry: bool)
        ensures
            *final(self) == (if !old(self).just_changed && parry && old(self).spec_can_run() {
                Self::after_set_state(*old(self), DudeState::Parrying(ParryState::Start))
            } else {
                *old(self)
            }),
    {
        if self.just_changed() || !parry || !self.can_run() {
            return;
        }
        self.set_state(DudeState::Parrying(ParryState::Start));
    }

    /// The move input starts running, and its absence stops it, whenever the
    /// player could run.
    pub fn transition_run(&mut self, move_is_zero: bool)
        ensures
            *final(self) == (if old(self).just_changed || !old(self).spec_can_run() {
                *old(self)
            } else if !move_is_zero {
                if old(self).state != DudeState::Running {
                    Self::after_set_state(*old(self), DudeState::Running)
                } else {
                    *old(self)
                }
            } else if old(self).state == DudeState::Running {
                Self::after_set_state(*old(self), DudeState::Idling)
            } else {
                *old(self)
            }),
    {
        if self.just_changed() || !self.can_run() {
            return;
        }
        if !move_is_zero {
            if self.state() != DudeState::Running {
                self.set_state(DudeState::Running);
            }
        } else if self.state() == DudeState::Running {
            self.set_state(DudeState::Idling);
        }
    }

    /// The state the player moves on to when the animation of its current
    /// activity (other than an attack) ends, if any: a recovery, a stagger
    /// recovery and a failed or successful parry end idle, a parry that hit
    /// nothing fails.
    pub open spec fn idle_target(m: Self, animation_finished: bool) -> Option<DudeState> {
        if !animation_finished {
            None
        } else {
            match m.state {
                DudeState::Recovering => Some(DudeState::Idling),
                DudeState::Staggering => if spec_is_recovering(m.stagger.state) {
                    Some(DudeState::Idling)
                } else {
                    None
                },
                DudeState::Parrying(ParryState::Start) => Some(DudeState::Parrying(ParryState::Fail)),
                DudeState::Parrying(_) => Some(DudeState::Idling),
                _ => None,
            }
        }
    }

    /// End the current activity: a finished attack continues its combo or
    /// ends (see `transition_chain_attack`), a finished recovery idles, a
    /// finished stagger recovers and a finished stagger recovery idles, and a
    /// parry runs its course.
    pub fn transition_idle(&mut self, animation_finished: bool, stagger_finished: bool, move_is_zero: bool)
        ensures
            old(self).just_changed ==> *final(self) == *old(self),
            !old(self).just_changed && old(self).state == DudeState::Attacking ==> *final(self) == (
            if animation_finished {
                Self::after_chain_attack(*old(self), move_is_zero)
            } else {
                *old(self)
            }),
            !old(self).just_changed && old(self).state != DudeState::Attacking ==> {
                let t = Self::idle_target(*old(self), animation_finished);
                &&& (t matches Some(s) ==> *final(self) == Self::after_set_state(*old(self), s))
                &&& (t is None && old(self).state == DudeState::Staggering && !spec_is_recovering(
                    old(self).stagger.state,
                ) && stagger_finished ==> *final(self) == (PlayerStateMachine {
                    stagger: Stagger { state: spec_recover_state(old(self).stagger.state), ..old(self).stagger },
                    ..*old(self)
                }))
                &&& (t is None && !(old(self).state == DudeState::Staggering && !spec_is_recovering(
                    old(self).stagger.state,
                ) && stagger_finished) ==> *final(self) == *old(self))
            },
    {
        if self.just_changed() {
            return;
        }
        match self.state() {
            DudeState::Attacking => {
                if animation_finished {
                    self.transition_chain_attack(move_is_zero);
                }
            },
            DudeState::Recovering => {
                if animation_finished {
                    self.set_state(DudeState::Idling);
                }
            },
            DudeState::Staggering => {
                if self.stagger_state().is_recovering() {
                    if animation_finished {
                        self.set_state(DudeState::Idling);
                    }
                } else if stagger_finished {
                    self.set_stagger_state_recover();
                }
            },
            DudeState::Parrying(ParryState::Start) => {
                if animation_finished {
                    self.set_state(DudeState::Parrying(ParryState::Fail));
                }
            },
            DudeState::Parrying(_) => {
                if animation_finished {
                    self.set_state(DudeState::Idling);
                }
            },
            _ => {},
        }
    }
}

/// Every change of state lets the player move again, and records the state
/// it left; a second change in the same frame is ignored.
pub proof fn lemma_player_state_change<D: Copy>(m: PlayerStateMachine<D>, s1: DudeState, s2: DudeState)
    ensures
        !m.just_changed ==> PlayerStateMachine::<D>::after_set_state(m, s1).state == s1
            && PlayerStateMachine::<D>::after_set_state(m, s1).previous_state == m.state
            && PlayerStateMachine::<D>::after_set_state(m, s1).attack_handler.can_move,
        PlayerStateMachine::<D>::after_set_state(PlayerStateMachine::<D>::after_set_state(m, s1), s2)
            == PlayerStateMachine::<D>::after_set_state(m, s1),
{
}

/// An attack input during an attack never changes the state, and a started
/// attack is always chainable.
pub proof fn lemma_attack_input<D: Copy>(m: PlayerStateMachine<D>, form: AttackForm)
    ensures
        m.state == DudeState::Attacking ==> PlayerStateMachine::<D>::after_attack_input(m, form).state
            == DudeState::Attacking && PlayerStateMachine::<D>::after_attack_input(m, form).attack_handler.attack == m.attack_handler.attack,
        m.state != DudeState::Attacking && PlayerStateMachine::<D>::after_attack_input(m, form).state
            == DudeState::Attacking && !m.just_changed ==> PlayerStateMachine::<D>::after_attack_input(m, form).attack_handler.chainable,
{
}

/// Moving during an attack: a change of state or a started attack lets the
/// player move; once the attack's hitbox appeared it may not, and a change
/// of state or attack that is refused in the same frame does not lift that;
/// only the next change that takes place does.
pub proof fn lemma_can_move_during_attack<D: Copy>(m: PlayerStateMachine<D>, s: DudeState, a: Attack)
    ensures
        !m.just_changed ==> PlayerStateMachine::<D>::after_set_state(m, s).attack_handler.can_move,
        !m.just_changed ==> PlayerStateMachine::<D>::after_set_attack(m, a).attack_handler.can_move,
        !PlayerStateMachine::<D>::after_disable_move(m).attack_handler.can_move,
        m.just_changed ==> !PlayerStateMachine::<D>::after_set_state(
            PlayerStateMachine::<D>::after_disable_move(m),
            s,
        ).attack_handler.can_move,
        m.just_changed ==> !PlayerStateMachine::<D>::after_set_attack(
            PlayerStateMachine::<D>::after_disable_move(m),
            a,
        ).attack_handler.can_move,
        !m.just_changed ==> PlayerStateMachine::<D>::after_set_state(
            PlayerStateMachine::<D>::after_disable_move(m),
            s,
        ).attack_handler.can_move,
{
}

/// How an attack ends when its animation does: with nothing chained, or a
/// chained input that continues no combo, the player recovers when standing
/// still or after a jumping attack (`Dropkick`, `Hammerfist`, whatever the
/// movement), and runs on when moving after a ground attack; a chained input
/// that continues the combo starts the next attack of the combo. The chained
/// input is used up either way.
pub proof fn lemma_attack_end<D: Copy>(m: PlayerStateMachine<D>, move_is_zero: bool)
    requires
        !m.just_changed,
    ensures
        ({
            let r = PlayerStateMachine::<D>::after_chain_attack(m, move_is_zero);
            let a = m.attack_handler.attack;
            let ends = m.attack_handler.chained_attack == AttackForm::Nothing || spec_combo_attack(
                a,
                m.attack_handler.chained_attack,
            ) is None;
            &&& (a == Attack::Dropkick || a == Attack::Hammerfist) ==> r.state == DudeState::Recovering
            &&& ends && move_is_zero ==> r.state == DudeState::Recovering
            &&& ends && !move_is_zero && a != Attack::Dropkick && a != Attack::Hammerfist ==> r.state
                == DudeState::Running
            &&& !ends ==> r.state == DudeState::Attacking && Some(r.attack_handler.attack)
                == spec_combo_attack(a, m.attack_handler.chained_attack)
            &&& r.attack_handler.chained_attack == AttackForm::Nothing
            &&& r.previous_state == m.state
        }),
{
    if m.attack_handler.attack == Attack::Dropkick || m.attack_handler.attack == Attack::Hammerfist {
        crate::dude::lemma_jump_attacks_end_combos(m.attack_handler.attack, m.attack_handler.chained_attack);
    }
}

/// When the animation of the player's activity ends: a recovery, a stagger
/// recovery and a parry that succeeded or failed lead to idling, a parry
/// that just started fails; nothing changes before the animation ends, and
/// an unfinished stagger, an attack (see `lemma_attack_end`) or running and
/// idling have no such end.
pub proof fn lemma_player_activity_end<D: Copy>(m: PlayerStateMachine<D>, animation_finished: bool)
    ensures
        !animation_finished ==> PlayerStateMachine::<D>::idle_target(m, animation_finished) is None,
        animation_finished && (m.state == DudeState::Recovering || m.state == DudeState::Parrying(
            ParryState::Fail,
        ) || m.state == DudeState::Parrying(ParryState::Success) || (m.state == DudeState::Staggering
            && spec_is_recovering(m.stagger.state))) ==> PlayerStateMachine::<D>::idle_target(
            m,
            animation_finished,
        ) == Some(DudeState::Idling),
        animation_finished && m.state == DudeState::Parrying(ParryState::Start)
            ==> PlayerStateMachine::<D>::idle_target(m, animation_finished) == Some(
            DudeState::Parrying(ParryState::Fail),
        ),
        (m.state == DudeState::Attacking || m.state == DudeState::Running || m.state
            == DudeState::Idling || (m.state == DudeState::Staggering && !spec_is_recovering(
            m.stagger.state,
        ))) ==> PlayerStateMachine::<D>::idle_target(m, animation_finished) is None,
{
}

} // verus!
