//! The states of a dude with six attacks and two kinds of stagger: which
//! animation each state shows, when an attack's hitbox is active, and how
//! hard each attack staggers its target.
use vstd::prelude::*;
use crate::assets::DudeAnimations;

verus! {

/// What a dude is doing.
#[derive(Clone, Copy, Debug, PartialEq, Eq, Structural)]
pub enum DudeState {
    Idling,
    Running,
    Attacking,
    Recovering,
    Staggering,
}

/// The attacks of a dude.
#[derive(Clone, Copy, Debug, PartialEq, Eq, Structural)]
pub enum Attack {
    Light1,
    Light2,
    Light3,
    Heavy1,
    Heavy2,
    Heavy3,
}

/// How a dude is staggered: pushed back on its feet, or sent flying.
#[derive(Clone, Copy, Debug, PartialEq, Eq, Structural)]
pub enum StaggerState {
    Normal,
    Flying,
}

/// The animation of an attack.
pub open spec fn attack_animation(attack: Attack) -> DudeAnimations {
    match attack {
        Attack::Light1 => DudeAnimations::Light1,
        Attack::Light2 => DudeAnimations::Light2,
        Attack::Light3 => DudeAnimations::Light3,
        Attack::Heavy1 => DudeAnimations::Heavy1,
        Attack::Heavy2 => DudeAnimations::Heavy2,
        Attack::Heavy3 => DudeAnimations::Heavy3,
    }
}

/// The animation of the recovery after an attack.
pub open spec fn recover_animation(attack: Attack) -> DudeAnimations {
    match attack {
        Attack::Light1 => DudeAnimations::Light1Recover,
        Attack::Light2 => DudeAnimations::Light2Recover,
        Attack::Light3 => DudeAnimations::Light3Recover,
        Attack::Heavy1 => DudeAnimations::Heavy1Recover,
        Attack::Heavy2 => DudeAnimations::Heavy2Recover,
        Attack::Heavy3 => DudeAnimations::Heavy3Recover,
    }
}

/// The animation of a dude in a state and whether it repeats: idling and
/// running repeat, the others play once.
pub open spec fn spec_dude_state_animation(
    state: DudeState,
    attack: Attack,
    stagger_state: StaggerState,
) -> (DudeAnimations, bool) {
    match state {
        DudeState::Idling => (DudeAnimations::Idle, true),
        DudeState::Running => (DudeAnimations::Run, true),
        DudeState::Attacking => (attack_animation(attack), false),
        DudeState::Recovering => (recover_animation(attack), false),
        DudeState::Staggering => (
            match stagger_state {
                StaggerState::Normal => DudeAnimations::StaggerNormal,
                StaggerState::Flying => DudeAnimations::StaggerFlying,
            },
            false,
        ),
    }
}

/// The animation of a dude in a state and whether it repeats. The texture
/// is the animation's index; the clip is chosen among the eight directions
/// of that animation by the caller.
pub fn dude_state_animation(state: DudeState, attack: Attack, stagger_state: StaggerState) -> (r: (
    DudeAnimations,
    bool,
))
    ensures
        r == spec_dude_state_animation(state, attack, stagger_state),
{
    match state {
        DudeState::Idling => (DudeAnimations::Idle, true),
        DudeState::Running => (DudeAnimations::Run, true),
        DudeState::Attacking => (
            match attack {
                Attack::Light1 => DudeAnimations::Light1,
                Attack::Light2 => DudeAnimations::Light2,
                Attack::Light3 => DudeAnimations::Light3,
                Attack::Heavy1 => DudeAnimations::Heavy1,
                Attack::Heavy2 => DudeAnimations::Heavy2,
                Attack::Heavy3 => DudeAnimations::Heavy3,
            },
            false,
        ),
        DudeState::Recovering => (
            match attack {
                Attack::Light1 => DudeAnimations::Light1Recover,
                Attack::Light2 => DudeAnimations::Light2Recover,
                Attack::Light3 => DudeAnimations::Light3Recover,
                Attack::Heavy1 => DudeAnimations::Heavy1Recover,
                Attack::Heavy2 => DudeAnimations::Heavy2Recover,
                Attack::Heavy3 => DudeAnimations::Heavy3Recover,
            },
            false,
        ),
        DudeState::Staggering => (
            match stagger_state {
                StaggerState::Normal => DudeAnimations::StaggerNormal,
                StaggerState::Flying => DudeAnimations::StaggerFlying,
            },
            false,
        ),
    }
}

/// The first and last frame of an attack animation in which its hitbox is
/// active; states without a hitbox give `(0, 0)`.
pub fn dude_state_hitbox_frames(state: DudeState, attack: Attack) -> (r: (usize, usize))
    ensures
        r == (if state != DudeState::Attacking {
            (0usize, 0usize)
        } else if attack == Attack::Light1 || attack == Attack::Light2 {
            (0usize, 1usize)
        } else {
            (1usize, 2usize)
        }),
{
    match state {
        DudeState::Attacking => match attack {
            Attack::Light1 => (0, 1),
            Attack::Light2 => (0, 1),
            Attack::Light3 => (1, 2),
            Attack::Heavy1 => (1, 2),
            Attack::Heavy2 => (1, 2),
            Attack::Heavy3 => (1, 2),
        },
        _ => (0, 0),
    }
}

/// How an attack staggers: the kind, the duration in milliseconds and the
/// push intensity, each before the caller's multiplier.
pub open spec fn spec_on_attack(attack: Attack) -> (StaggerState, u32, u32) {
    match attack {
        Attack::Light1 => (StaggerState::Normal, 300, 50),
        Attack::Light2 => (StaggerState::Normal, 300, 250),
        Attack::Light3 => (StaggerState::Flying, 200, 0),
        Attack::Heavy1 => (StaggerState::Normal, 300, 0),
        Attack::Heavy2 => (StaggerState::Normal, 350, 500),
        Attack::Heavy3 => (StaggerState::Normal, 250, 700),
    }
}

/// The stagger of a dude: its kind and the push it receives, a direction of
/// type `D` scaled by `intensity`. The timer that ends it is kept by the
/// caller.
#[derive(Clone, Copy, Debug, PartialEq, Eq, Structural)]
pub struct Stagger<D> {
    pub state: StaggerState,
    pub direction: D,
    pub intensity: u32,
}

impl<D: Copy> Stagger<D> {
    /// Start a stagger of the given kind.
    pub fn reset_state(&mut self, state: StaggerState, direction: D, intensity: u32)
        ensures
            final(self).state == state,
            final(self).direction == direction,
            final(self).intensity == intensity,
    {
        self.state = state;
        self.direction = direction;
        self.intensity = intensity;
    }

    /// Start the stagger that `attack` causes, pushed along `direction`.
    /// Returns the kind, the duration in milliseconds and the intensity of
    /// the attack's stagger (before the caller's multipliers; the duration
    /// is for the caller's timer).
    pub fn on_attack(&mut self, attack: Attack, direction: D) -> (r: (StaggerState, u32, u32))
        ensures
            r == spec_on_attack(attack),
            final(self).state == r.0,
            final(self).direction == direction,
            final(self).intensity == r.2,
    {
        let r: (StaggerState, u32, u32) = match attack {
            Attack::Light1 => (StaggerState::Normal, 300, 50),
            Attack::Light2 => (StaggerState::Normal, 300, 250),
            Attack::Light3 => (StaggerState::Flying, 200, 0),
            Attack::Heavy1 => (StaggerState::Normal, 300, 0),
            Attack::Heavy2 => (StaggerState::Normal, 350, 500),
            Attack::Heavy3 => (StaggerState::Normal, 250, 700),
        };
        self.reset_state(r.0, direction, r.2);
        r
    }
}

/// Only idling and running repeat their animation, and the animation of an
/// attack differs from that of its recovery.
pub proof fn lemma_state_animations(state: DudeState, attack: Attack, s: StaggerState)
    ensures
        spec_dude_state_animation(state, attack, s).1 <==> (state == DudeState::Idling || state
            == DudeState::Running),
        attack_animation(attack) != recover_animation(attack),
{
}

} // verus!
