//! A simpler state machine of the player: light and heavy attacks in
//! combos of at most three, with a chain buffer after each attack. Its
//! chain buffer timer is kept by the caller, who passes its outcome in.
use vstd::prelude::*;

verus! {

/// What the player is doing.
#[derive(Clone, Copy, Debug, PartialEq, Eq, Structural)]
pub enum PlayerState {
    Idling,
    Running,
    Attacking,
    Recovering,
}

/// The attack the player performs (or last performed).
#[derive(Clone, Copy, Debug, PartialEq, Eq, Structural)]
pub enum PlayerAttackState {
    Light1,
    Light2,
    Light3,
    Heavy1,
    Heavy2,
}

/// An attack input.
#[derive(Clone, Copy, Debug, PartialEq, Eq, Structural)]
pub enum Attack {
    Nothing,
    Light,
    Heavy,
}

/// The state machine of the player.
#[derive(Clone, Copy, Debug, PartialEq, Eq, Structural)]
pub struct PlayerStateMachine {
    /// The state changed during the current frame (it changes at most once).
    pub just_changed: bool,
    pub state: PlayerState,
    pub previous_state: PlayerState,
    pub attack_state: PlayerAttackState,
    /// The input given during an attack, to follow it.
    pub chained_attack: Attack,
    /// The chain buffer after an attack is still running.
    pub chainable: bool,
}

/// The combo table: the attack that follows `attack_state` on input
/// `attack` (`None` when the combo ends there).
pub open spec fn spec_combo(attack_state: PlayerAttackState, attack: Attack) -> Option<PlayerAttackState> {
    match attack_state {
        PlayerAttackState::Light1 => match attack {
            Attack::Light => Some(PlayerAttackState::Light2),
            _ => Some(PlayerAttackState::Heavy1),
        },
        PlayerAttackState::Light2 => match attack {
            Attack::Light => Some(PlayerAttackState::Light3),
            _ => None,
        },
        PlayerAttackState::Light3 => None,
        PlayerAttackState::Heavy1 => match attack {
            Attack::Light => Some(PlayerAttackState::Light2),
            _ => Some(PlayerAttackState::Heavy2),
        },
        PlayerAttackState::Heavy2 => None,
    }
}

/// The attacks whose combo entry needs an input.
pub open spec fn combo_needs_input(attack_state: PlayerAttackState) -> bool {
    attack_state == PlayerAttackState::Light1 || attack_state == PlayerAttackState::Light2
        || attack_state == PlayerAttackState::Heavy1
}

/// The animation of the player in a state, as its index in the player's
/// animation collection, and whether it repeats.
pub open spec fn spec_state_animation(state: PlayerState, attack_state: PlayerAttackState) -> (usize, bool) {
    match state {
        PlayerState::Idling => (0, true),
        PlayerState::Running => (1, true),
        PlayerState::Attacking => (
            match attack_state {
                PlayerAttackState::Light1 => 2,
                PlayerAttackState::Light2 => 4,
                PlayerAttackState::Light3 => 11,
                PlayerAttackState::Heavy1 => 7,
                PlayerAttackState::Heavy2 => 9,
            },
            false,
        ),
        PlayerState::Recovering => (
            match attack_state {
                PlayerAttackState::Light1 => 3,
                PlayerAttackState::Light2 => 5,
                PlayerAttackState::Light3 => 12,
                PlayerAttackState::Heavy1 => 8,
                PlayerAttackState::Heavy2 => 10,
            },
            false,
        ),
    }
}

impl PlayerStateMachine {
    /// The machine after asking to change to state `s`: nothing happens when
    /// the state already changed this frame.
    pub open spec fn after_set_state(m: Self, s: PlayerState) -> Self {
        if m.just_changed {
            m
        } else {
            PlayerStateMachine { just_changed: true, previous_state: m.state, state: s, ..m }
        }
    }

    /// The machine after starting attack `a`, with a new chain buffer to come.
    pub open spec fn after_set_attack_state(m: Self, a: PlayerAttackState) -> Self {
        if m.just_changed {
            m
        } else {
            PlayerStateMachine {
                just_changed: true,
                previous_state: m.state,
                state: PlayerState::Attacking,
                attack_state: a,
                chainable: true,
                ..m
            }
        }
    }

    /// The machine after starting the first attack of input `attack`.
    pub open spec fn after_default_attack(m: Self, attack: Attack) -> Self {
        match attack {
            Attack::Nothing => m,
            Attack::Light => Self::after_set_attack_state(m, PlayerAttackState::Light1),
            Attack::Heavy => Self::after_set_attack_state(m, PlayerAttackState::Heavy1),
        }
    }

    pub open spec fn spec_can_run(&self) -> bool {
        self.state == PlayerState::Idling || self.state == PlayerState::Running || self.state
            == PlayerState::Recovering
    }

    pub open spec fn spec_can_punch(&self) -> bool {
        self.spec_can_run() || self.state == PlayerState::Attacking
    }

    /// An idle player that has not attacked yet.
    pub fn new() -> (m: Self)
        ensures
            m == (PlayerStateMachine {
                just_changed: false,
                state: PlayerState::Idling,
                previous_state: PlayerState::Idling,
                attack_state: PlayerAttackState::Light1,
                chained_attack: Attack::Nothing,
                chainable: false,
            }),
    {
        PlayerStateMachine {
            just_changed: false,
            state: PlayerState::Idling,
            previous_state: PlayerState::Idling,
            attack_state: PlayerAttackState::Light1,
            chained_attack: Attack::Nothing,
            chainable: false,
        }
    }

    /// The player may run: idle, running or recovering.
    pub fn can_run(&self) -> (b: bool)
        ensures
            b == self.spec_can_run(),
    {
        self.state == PlayerState::Idling || self.state == PlayerState::Running || self.state
            == PlayerState::Recovering
    }

    /// The player may punch: whenever it may run, and while attacking.
    pub fn can_punch(&self) -> (b: bool)
        ensures
            b == self.spec_can_punch(),
    {
        self.can_run() || self.state == PlayerState::Attacking
    }

    pub fn previous_state(&self) -> (s: PlayerState)
        ensures
            s == self.previous_state,
    {
        self.previous_state
    }

    pub fn state(&self) -> (s: PlayerState)
        ensures
            s == self.state,
    {
        self.state
    }

    /// Change the state, unless it already changed this frame.
    pub fn set_state(&mut self, state: PlayerState)
        ensures
            *final(self) == Self::after_set_state(*old(self), state),
    {
        if self.just_changed {
            return;
        }
        self.set_just_changed(true);
        self.previous_state = self.state;
        self.state = state;
    }

    pub fn attack_state(&self) -> (a: PlayerAttackState)
        ensures
            a == self.attack_state,
    {
        self.attack_state
    }

    /// The player is performing `attack_state`.
    pub fn attack_state_eq(&self, attack_state: PlayerAttackState) -> (b: bool)
        ensures
            b == (self.state == PlayerState::Attacking && self.attack_state == attack_state),
    {
        self.state == PlayerState::Attacking && self.attack_state() == attack_state
    }

    /// Start attack `attack_state`, unless the state already changed this
    /// frame; the chain buffer of the previous attack stops.
    pub fn set_attack_state(&mut self, attack_state: PlayerAttackState)
        ensures
            *final(self) == Self::after_set_attack_state(*old(self), attack_state),
    {
        if self.just_changed {
            return;
        }
        self.set_state(PlayerState::Attacking);
        self.attack_state = attack_state;
        self.chainable = true;
    }

    pub fn chained_attack(&self) -> (a: Attack)
        ensures
            a == self.chained_attack,
    {
        self.chained_attack
    }

    pub fn set_chained_attack(&mut self, attack: Attack)
        ensures
            *final(self) == (PlayerStateMachine { chained_attack: attack, ..*old(self) }),
    {
        self.chained_attack = attack;
    }

    pub fn just_changed(&self) -> (b: bool)
        ensures
            b == self.just_changed,
    {
        self.just_changed
    }

    pub fn set_just_changed(&mut self, just_changed: bool)
        ensures
            *final(self) == (PlayerStateMachine { just_changed, ..*old(self) }),
    {
        self.just_changed = just_changed;
    }

    /// When the chain buffer timer has just run out, the combo can no longer
    /// be continued.
    pub fn handle_attack_chain_timer(&mut self, timer_just_finished: bool)
        ensures
            *final(self) == (if timer_just_finished {
                PlayerStateMachine { chainable: false, ..*old(self) }
            } else {
                *old(self)
            }),
    {
        if timer_just_finished {
            self.chainable = false;
        }
    }

    /// The chain buffer timer starts when an attack has just ended.
    pub fn attack_chain_timer_starts(&self) -> (b: bool)
        ensures
            b == (self.just_changed && self.previous_state == PlayerState::Attacking && self.state
                != PlayerState::Attacking),
    {
        self.just_changed && self.previous_state == PlayerState::Attacking && self.state
            != PlayerState::Attacking
    }

    /// Start the first attack of input `attack`, if any.
    pub fn default_attack(&mut self, attack: Attack)
        ensures
            *final(self) == Self::after_default_attack(*old(self), attack),
    {
        match attack {
            Attack::Nothing => {},
            Attack::Light => self.set_attack_state(PlayerAttackState::Light1),
            Attack::Heavy => self.set_attack_state(PlayerAttackState::Heavy1),
        }
    }

    /// The attack that input `attack` continues the combo with, if any. The
    /// first attacks of a combo need an input.
    pub fn combo_attack(&self, attack: Attack) -> (a: Option<PlayerAttackState>)
        requires
            combo_needs_input(self.attack_state) ==> attack != Attack::Nothing,
        ensures
            a == spec_combo(self.attack_state, attack),
    {
        match self.attack_state() {
            PlayerAttackState::Light1 => match attack {
                Attack::Light => Some(PlayerAttackState::Light2),
                _ => Some(PlayerAttackState::Heavy1),
            },
            PlayerAttackState::Light2 => match attack {
                Attack::Light => Some(PlayerAttackState::Light3),
                _ => None,
            },
            PlayerAttackState::Light3 => None,
            PlayerAttackState::Heavy1 => match attack {
                Attack::Light => Some(PlayerAttackState::Light2),
                _ => Some(PlayerAttackState::Heavy2),
            },
            PlayerAttackState::Heavy2 => None,
        }
    }

    /// The machine after the attack animation ended.
    pub open spec fn after_chain_attack(m: Self) -> Self {
        if m.chained_attack == Attack::Nothing {
            Self::after_set_state(m, PlayerState::Recovering)
        } else {
            let next = match spec_combo(m.attack_state, m.chained_attack) {
                Some(a) => Self::after_set_attack_state(m, a),
                None => Self::after_set_state(m, PlayerState::Recovering),
            };
            PlayerStateMachine { chained_attack: Attack::Nothing, ..next }
        }
    }

    /// When an attack animation ends: the chained input continues the combo,
    /// or the player recovers.
    pub fn transition_chain_attack(&mut self)
        ensures
            *final(self) == Self::after_chain_attack(*old(self)),
    {
        if self.chained_attack() == Attack::Nothing {
            self.set_state(PlayerState::Recovering);
            return;
        }
        match self.combo_attack(self.chained_attack()) {
            Some(attack_state) => self.set_attack_state(attack_state),
            None => self.set_state(PlayerState::Recovering),
        }
        self.set_chained_attack(Attack::Nothing);
    }

    /// The machine after an attack input.
    pub open spec fn after_attack(m: Self, attack: Attack) -> Self {
        if m.just_changed || !m.spec_can_punch() {
            m
        } else if m.state == PlayerState::Attacking {
            PlayerStateMachine { chained_attack: attack, ..m }
        } else if m.chainable {
            match spec_combo(m.attack_state, attack) {
                Some(a) => Self::after_set_attack_state(m, a),
                None => Self::after_default_attack(m, attack),
            }
        } else {
            Self::after_default_attack(m, attack)
        }
    }

    /// An attack input: during an attack it is chained for later; within the
    /// chain buffer it continues the combo (or starts over); otherwise it
    /// starts the first attack. An input is needed wherever it is used.
    pub fn transition_attack(&mut self, attack: Attack)
        requires
            attack == Attack::Nothing ==> old(self).just_changed || !old(self).spec_can_punch() || (
            old(self).state != PlayerState::Attacking && !(old(self).chainable && combo_needs_input(
                old(self).attack_state,
            ))),
        ensures
            *final(self) == Self::after_attack(*old(self), attack),
    {
        if self.just_changed() {
            return;
        }
        if !self.can_punch() {
            return;
        }
        if self.state() == PlayerState::Attacking {
            self.set_chained_attack(attack);
        } else if self.chainable {
            match self.combo_attack(attack) {
                Some(attack_state) => self.set_attack_state(attack_state),
                None => self.default_attack(attack),
            }
        } else {
            self.default_attack(attack);
        }
    }

    /// The animation of the current state: its index in the player's
    /// animation collection and whether it repeats.
    pub fn state_animation(&self) -> (r: (usize, bool))
        ensures
            r == spec_state_animation(self.state, self.attack_state),
    {
        match self.state {
            PlayerState::Idling => (0, true),
            PlayerState::Running => (1, true),
            PlayerState::Attacking => match self.attack_state() {
                PlayerAttackState::Light1 => (2, false),
                PlayerAttackState::Light2 => (4, false),
                PlayerAttackState::Light3 => (11, false),
                PlayerAttackState::Heavy1 => (7, false),
                PlayerAttackState::Heavy2 => (9, false),
            },
            PlayerState::Recovering => match self.attack_state() {
                PlayerAttackState::Light1 => (3, false),
                PlayerAttackState::Light2 => (5, false),
                PlayerAttackState::Light3 => (12, false),
                PlayerAttackState::Heavy1 => (8, false),
                PlayerAttackState::Heavy2 => (10, false),
            },
        }
    }

    /// The first and last frame of the attack animation in which its hitbox
    /// is active; states without a hitbox give `(0, 0)`.
    pub fn state_hitbox_frames(&self) -> (r: (usize, usize))
        ensures
            r == (if self.state != PlayerState::Attacking {
                (0usize, 0usize)
            } else if self.attack_state == PlayerAttackState::Light1 || self.attack_state
                == PlayerAttackState::Light2 {
                (0usize, 1usize)
            } else {
                (1usize, 2usize)
            }),
    {
        match self.state {
            PlayerState::Attacking => match self.attack_state() {
                PlayerAttackState::Light1 => (0, 1),
                PlayerAttackState::Light2 => (0, 1),
                PlayerAttackState::Light3 => (1, 2),
                PlayerAttackState::Heavy1 => (1, 2),
                PlayerAttackState::Heavy2 => (1, 2),
            },
            _ => (0, 0),
        }
    }

    /// The move input starts running, and its absence stops it, whenever the
    /// player could run.
    pub fn transition_run(&mut self, move_is_zero: bool)
        ensures
            *final(self) == (if old(self).just_changed || !old(self).spec_can_run() {
                *old(self)
            } else if !move_is_zero {
                if old(self).state != PlayerState::Running {
                    Self::after_set_state(*old(self), PlayerState::Running)
                } else {
                    *old(self)
                }
            } else if old(self).state == PlayerState::Running {
                Self::after_set_state(*old(self), PlayerState::Idling)
            } else {
                *old(self)
            }),
    {
        if self.just_changed() || !self.can_run() {
            return;
        }
        if !move_is_zero {
            if self.state() != PlayerState::Running {
                self.set_state(PlayerState::Running);
            }
        } else if self.state() == PlayerState::Running {
            self.set_state(PlayerState::Idling);
        }
    }

    /// When the animation of the current state ends: an attack continues its
    /// combo or recovers, a recovery ends idle.
    pub fn transition_idle(&mut self, animation_finished: bool)
        ensures
            *final(self) == (if old(self).just_changed || !animation_finished {
                *old(self)
            } else if old(self).state == PlayerState::Attacking {
                Self::after_chain_attack(*old(self))
            } else if old(self).state == PlayerState::Recovering {
                Self::after_set_state(*old(self), PlayerState::Idling)
            } else {
                *old(self)
            }),
    {
        if self.just_changed() || !animation_finished {
            return;
        }
        match self.state() {
            PlayerState::Attacking => self.transition_chain_attack(),
            PlayerState::Recovering => self.set_state(PlayerState::Idling),
            _ => {},
        }
    }
}

/// An attack input during an attack only chains it, and any attack a
/// combo reaches is at most the third of its combo: combos end after
/// Light3 and Heavy2, and Light2 does not continue with a heavy attack.
pub proof fn lemma_combos_end(a: PlayerAttackState, input: Attack)
    ensures
        a == PlayerAttackState::Light3 || a == PlayerAttackState::Heavy2 ==> spec_combo(a, input) is None,
        spec_combo(PlayerAttackState::Light2, Attack::Heavy) is None,
        spec_combo(a, input) != Some(PlayerAttackState::Light1),
{
}

/// The combos of the basic player: a light input after `Light1` or
/// `Heavy1` continues to `Light2` and after `Light2` to `Light3`; a heavy
/// input after `Light1` gives `Heavy1` and after `Heavy1` gives `Heavy2`;
/// every other combination (a heavy input after `Light2`, anything after
/// `Light3` or `Heavy2`) ends the combo.
pub proof fn lemma_basic_combos(a: PlayerAttackState)
    ensures
        spec_combo(a, Attack::Light) == Some(PlayerAttackState::Light2) <==> (a
            == PlayerAttackState::Light1 || a == PlayerAttackState::Heavy1),
        spec_combo(a, Attack::Light) == Some(PlayerAttackState::Light3) <==> a
            == PlayerAttackState::Light2,
        spec_combo(a, Attack::Heavy) == Some(PlayerAttackState::Heavy1) <==> a
            == PlayerAttackState::Light1,
        spec_combo(a, Attack::Heavy) == Some(PlayerAttackState::Heavy2) <==> a
            == PlayerAttackState::Heavy1,
        spec_combo(a, Attack::Light) is None <==> (a == PlayerAttackState::Light3 || a
            == PlayerAttackState::Heavy2),
        spec_combo(a, Attack::Heavy) is None <==> (a == PlayerAttackState::Light2 || a
            == PlayerAttackState::Light3 || a == PlayerAttackState::Heavy2),
{
}

/// When an attack of the basic player ends: a chained input that continues
/// the combo starts its next attack, anything else recovers; the chained
/// input is used up.
pub proof fn lemma_basic_attack_end(m: PlayerStateMachine)
    requires
        !m.just_changed,
    ensures
        ({
            let r = PlayerStateMachine::after_chain_attack(m);
            &&& (m.chained_attack == Attack::Nothing || spec_combo(m.attack_state, m.chained_attack)
                is None) ==> r.state == PlayerState::Recovering
            &&& m.chained_attack != Attack::Nothing && spec_combo(m.attack_state, m.chained_attack)
                is Some ==> r.state == PlayerState::Attacking && Some(r.attack_state) == spec_combo(
                m.attack_state,
                m.chained_attack,
            )
            &&& r.chained_attack == Attack::Nothing
        }),
{
}

} // verus!
