//! The fighters ("dudes"): their states, attacks, combos, staggering and the
//! animation that each state shows.
use vstd::prelude::*;
use crate::vector::IVec2;

verus! {

/// The phase of a parry.
#[derive(Clone, Copy, Debug, PartialEq, Eq, Structural)]
pub enum ParryState {
    Start,
    Fail,
    Success,
}

/// What a dude is doing.
#[derive(Clone, Copy, Debug, PartialEq, Eq, Structural)]
pub enum DudeState {
    Idling,
    Running,
    Attacking,
    Recovering,
    Staggering,
    Stalking,
    Dashing,
    Parrying(ParryState),
    Dying,
}

/// The attacks a dude can perform.
#[derive(Clone, Copy, Debug, PartialEq, Eq, Structural)]
pub enum Attack {
    Light1,
    Light2,
    Light3,
    Heavy1,
    Heavy2,
    Heavy3,
    Dropkick,
    Hammerfist,
}

/// The kind of attack input.
#[derive(Clone, Copy, Debug, PartialEq, Eq, Structural)]
pub enum AttackForm {
    Nothing,
    Light,
    Heavy,
    SpecialLight,
    SpecialHeavy,
}

/// The attack that an input starts when no combo is running.
pub open spec fn spec_default_attack(form: AttackForm) -> Option<Attack> {
    match form {
        AttackForm::Nothing => None,
        AttackForm::Light => Some(Attack::Light1),
        AttackForm::Heavy => Some(Attack::Heavy1),
        AttackForm::SpecialLight => Some(Attack::Hammerfist),
        AttackForm::SpecialHeavy => Some(Attack::Dropkick),
    }
}

/// The combo table: the attack that follows `attack` on input `form`.
pub open spec fn spec_combo_attack(attack: Attack, form: AttackForm) -> Option<Attack> {
    match attack {
        Attack::Dropkick | Attack::Hammerfist => None,
        _ => match form {
            AttackForm::Nothing => None,
            AttackForm::SpecialLight => Some(Attack::Hammerfist),
            AttackForm::SpecialHeavy => Some(Attack::Dropkick),
            AttackForm::Light => match attack {
                Attack::Light1 => Some(Attack::Light2),
                Attack::Light2 => Some(Attack::Light3),
                Attack::Heavy1 => Some(Attack::Light2),
                _ => Some(Attack::Light1),
            },
            AttackForm::Heavy => match attack {
                Attack::Light1 => Some(Attack::Heavy1),
                Attack::Light2 => Some(Attack::Heavy3),
                Attack::Light3 => Some(Attack::Heavy2),
                Attack::Heavy1 => Some(Attack::Heavy2),
                Attack::Heavy2 => Some(Attack::Heavy3),
                _ => Some(Attack::Heavy1),
            },
        },
    }
}

impl AttackForm {
    pub fn to_default_attack(self) -> (a: Option<Attack>)
        ensures
            a == spec_default_attack(self),
    {
        match self {
            AttackForm::Nothing => None,
            AttackForm::Light => Some(Attack::Light1),
            AttackForm::Heavy => Some(Attack::Heavy1),
            AttackForm::SpecialLight => Some(Attack::Hammerfist),
            AttackForm::SpecialHeavy => Some(Attack::Dropkick),
        }
    }
}

/// Half extents of an attack's hitbox and where it sits relative to the dude.
#[derive(Clone, Copy, Debug, PartialEq, Eq, Structural)]
pub struct EffectPosition {
    /// Offset of the hitbox collider.
    pub hitbox_offset: IVec2,
    /// Half width of the cuboid hitbox.
    pub half_width: i32,
    /// Half height of the cuboid hitbox.
    pub half_height: i32,
    /// Distance of the effect from the dude along the attack direction.
    pub magnitude: i32,
    /// Offset of the effect relative to the dude.
    pub position_offset: IVec2,
}

/// The graphic of an attack effect.
#[derive(Clone, Copy, Debug, PartialEq, Eq, Structural)]
pub enum EffectGraphic {
    Arc,
    HalfCircle,
    FlatLine,
    VerticalLine,
}

pub open spec fn effect(hw: int, hh: int, magnitude: int, oy: int) -> EffectPosition {
    EffectPosition {
        hitbox_offset: IVec2 { x: 0, y: 0 },
        half_width: hw as i32,
        half_height: hh as i32,
        magnitude: magnitude as i32,
        position_offset: IVec2 { x: 0, y: oy as i32 },
    }
}

/// The hitbox table of the attacks.
pub open spec fn spec_effect_position(attack: Attack) -> EffectPosition {
    match attack {
        Attack::Light1 => effect(8, 14, 20, 0),
        Attack::Light2 => effect(8, 14, 20, 0),
        Attack::Light3 => effect(12, 20, 20, 0),
        Attack::Heavy1 => effect(12, 12, 30, 0),
        Attack::Heavy2 => effect(8, 14, 20, 0),
        Attack::Heavy3 => effect(8, 14, 20, 0),
        Attack::Dropkick => effect(10, 8, 20, -6),
        Attack::Hammerfist => effect(8, 6, 16, -4),
    }
}

/// The effect graphic of each attack and whether it turns with the attack.
pub open spec fn spec_effect_animation(attack: Attack) -> (EffectGraphic, bool) {
    match attack {
        Attack::Light3 => (EffectGraphic::HalfCircle, true),
        Attack::Heavy1 => (EffectGraphic::FlatLine, true),
        Attack::Heavy3 => (EffectGraphic::VerticalLine, false),
        _ => (EffectGraphic::Arc, true),
    }
}

fn make_effect(hw: i32, hh: i32, magnitude: i32, oy: i32) -> (e: EffectPosition)
    ensures
        e == effect(hw as int, hh as int, magnitude as int, oy as int),
{
    EffectPosition {
        hitbox_offset: IVec2::new(0, 0),
        half_width: hw,
        half_height: hh,
        magnitude,
        position_offset: IVec2::new(0, oy),
    }
}

impl Attack {
    /// The attack that follows this one in a combo on the given input, `None`
    /// when the combo ends.
    pub fn to_combo_attack(self, attack_form: AttackForm) -> (a: Option<Attack>)
        ensures
            a == spec_combo_attack(self, attack_form),
    {
        match self {
            Attack::Light1 => match attack_form {
                AttackForm::Nothing => None,
                AttackForm::Light => Some(Attack::Light2),
                AttackForm::Heavy => Some(Attack::Heavy1),
                AttackForm::SpecialLight => Some(Attack::Hammerfist),
                AttackForm::SpecialHeavy => Some(Attack::Dropkick),
            },
            Attack::Light2 => match attack_form {
                AttackForm::Nothing => None,
                AttackForm::Light => Some(Attack::Light3),
                AttackForm::Heavy => Some(Attack::Heavy3),
                AttackForm::SpecialLight => Some(Attack::Hammerfist),
                AttackForm::SpecialHeavy => Some(Attack::Dropkick),
            },
            Attack::Light3 => match attack_form {
                AttackForm::Nothing => None,
                AttackForm::Light => AttackForm::Light.to_default_attack(),
                AttackForm::Heavy => Some(Attack::Heavy2),
                AttackForm::SpecialLight => Some(Attack::Hammerfist),
                AttackForm::SpecialHeavy => Some(Attack::Dropkick),
            },
            Attack::Heavy1 => match attack_form {
                AttackForm::Nothing => None,
                AttackForm::Light => Some(Attack::Light2),
                AttackForm::Heavy => Some(Attack::Heavy2),
                AttackForm::SpecialLight => Some(Attack::Hammerfist),
                AttackForm::SpecialHeavy => Some(Attack::Dropkick),
            },
            Attack::Heavy2 => match attack_form {
                AttackForm::Nothing => None,
                AttackForm::Light => AttackForm::Light.to_default_attack(),
                AttackForm::Heavy => Some(Attack::Heavy3),
                AttackForm::SpecialLight => Some(Attack::Hammerfist),
                AttackForm::SpecialHeavy => Some(Attack::Dropkick),
            },
            Attack::Heavy3 => match attack_form {
                AttackForm::Nothing => None,
                AttackForm::Light => AttackForm::Light.to_default_attack(),
                AttackForm::Heavy => AttackForm::Heavy.to_default_attack(),
                AttackForm::SpecialLight => Some(Attack::Hammerfist),
                AttackForm::SpecialHeavy => Some(Attack::Dropkick),
            },
            Attack::Dropkick => None,
            Attack::Hammerfist => None,
        }
    }

    /// The hitbox of the attack: collider offset, cuboid half extents, the
    /// distance from the dude and the position offset.
    pub fn effect_position_data(&self) -> (e: EffectPosition)
        ensures
            e == spec_effect_position(*self),
    {
        match self {
            Attack::Light1 => make_effect(8, 14, 20, 0),
            Attack::Light2 => make_effect(8, 14, 20, 0),
            Attack::Light3 => make_effect(12, 20, 20, 0),
            Attack::Heavy1 => make_effect(12, 12, 30, 0),
            Attack::Heavy2 => make_effect(8, 14, 20, 0),
            Attack::Heavy3 => make_effect(8, 14, 20, 0),
            Attack::Dropkick => make_effect(10, 8, 20, -6),
            Attack::Hammerfist => make_effect(8, 6, 16, -4),
        }
    }

    /// The effect graphic of the attack and whether to rotate it on its own
    /// axis along the attack direction.
    pub fn effect_animation_data(&self) -> (r: (EffectGraphic, bool))
        ensures
            r == spec_effect_animation(*self),
    {
        match self {
            Attack::Light1 => (EffectGraphic::Arc, true),
            Attack::Light2 => (EffectGraphic::Arc, true),
            Attack::Light3 => (EffectGraphic::HalfCircle, true),
            Attack::Heavy1 => (EffectGraphic::FlatLine, true),
            Attack::Heavy2 => (EffectGraphic::Arc, true),
            Attack::Heavy3 => (EffectGraphic::VerticalLine, false),
            Attack::Dropkick => (EffectGraphic::Arc, true),
            Attack::Hammerfist => (EffectGraphic::Arc, true),
        }
    }
}

/// A jumping attack (dropkick or hammerfist) ends every combo.
pub proof fn lemma_jump_attacks_end_combos(attack: Attack, form: AttackForm)
    requires
        attack == Attack::Dropkick || attack == Attack::Hammerfist,
    ensures
        spec_combo_attack(attack, form) is None,
{
}

/// From any ground attack the special inputs lead to the jumping attacks, and
/// no input but `Nothing` ends the combo.
pub proof fn lemma_ground_combos(attack: Attack, form: AttackForm)
    requires
        attack != Attack::Dropkick && attack != Attack::Hammerfist,
    ensures
        form == AttackForm::SpecialLight ==> spec_combo_attack(attack, form) == Some(Attack::Hammerfist),
        form == AttackForm::SpecialHeavy ==> spec_combo_attack(attack, form) == Some(Attack::Dropkick),
        spec_combo_attack(attack, form) is None <==> form == AttackForm::Nothing,
{
}

/// The light chain: a light input after `Light1` or `Heavy1` continues to
/// `Light2`, after `Light2` to `Light3`, and after the end of a chain
/// (`Light3`, `Heavy2`, `Heavy3`) starts over at the default light attack,
/// `Light1`. A light input always gives a light attack.
pub proof fn lemma_light_chain(attack: Attack)
    requires
        attack != Attack::Dropkick && attack != Attack::Hammerfist,
    ensures
        spec_default_attack(AttackForm::Light) == Some(Attack::Light1),
        spec_combo_attack(attack, AttackForm::Light) == Some(Attack::Light2) <==> (attack
            == Attack::Light1 || attack == Attack::Heavy1),
        spec_combo_attack(attack, AttackForm::Light) == Some(Attack::Light3) <==> attack
            == Attack::Light2,
        (attack == Attack::Light3 || attack == Attack::Heavy2 || attack == Attack::Heavy3)
            ==> spec_combo_attack(attack, AttackForm::Light) == spec_default_attack(AttackForm::Light),
        spec_combo_attack(attack, AttackForm::Light) == Some(Attack::Light1) || spec_combo_attack(
            attack,
            AttackForm::Light,
        ) == Some(Attack::Light2) || spec_combo_attack(attack, AttackForm::Light) == Some(
            Attack::Light3,
        ),
{
}

/// The heavy chain: a heavy input after `Light3` or `Heavy1` continues to
/// `Heavy2`, after `Light2` or `Heavy2` to `Heavy3`, and after `Light1` or
/// at the end of the chain (`Heavy3`) gives `Heavy1`, the default heavy
/// attack. A heavy input always gives a heavy attack.
pub proof fn lemma_heavy_chain(attack: Attack)
    requires
        attack != Attack::Dropkick && attack != Attack::Hammerfist,
    ensures
        spec_default_attack(AttackForm::Heavy) == Some(Attack::Heavy1),
        spec_combo_attack(attack, AttackForm::Heavy) == Some(Attack::Heavy2) <==> (attack
            == Attack::Light3 || attack == Attack::Heavy1),
        spec_combo_attack(attack, AttackForm::Heavy) == Some(Attack::Heavy3) <==> (attack
            == Attack::Light2 || attack == Attack::Heavy2),
        spec_combo_attack(attack, AttackForm::Heavy) == Some(Attack::Heavy1) <==> (attack
            == Attack::Light1 || attack == Attack::Heavy3),
        attack == Attack::Heavy3 ==> spec_combo_attack(attack, AttackForm::Heavy)
            == spec_default_attack(AttackForm::Heavy),
{
}

/// Each input form starts its own attack when no combo runs: no two forms
/// share a default attack, and only `Nothing` starts none.
pub proof fn lemma_default_attacks(f1: AttackForm, f2: AttackForm)
    ensures
        spec_default_attack(f1) is None <==> f1 == AttackForm::Nothing,
        f1 != f2 && f1 != AttackForm::Nothing ==> spec_default_attack(f1) != spec_default_attack(f2),
        spec_default_attack(AttackForm::SpecialLight) == Some(Attack::Hammerfist),
        spec_default_attack(AttackForm::SpecialHeavy) == Some(Attack::Dropkick),
{
}

/// The stagger phases; each stagger is followed by its recovery.
#[derive(Clone, Copy, Debug, PartialEq, Eq, Structural)]
pub enum StaggerState {
    Normal,
    StanceBreak,
    Fall,
    NormalRecover,
    StanceBreakRecover,
    FallRecover,
}

/// The recovery phases.
pub open spec fn spec_is_recovering(s: StaggerState) -> bool {
    s == StaggerState::NormalRecover || s == StaggerState::StanceBreakRecover || s
        == StaggerState::FallRecover
}

/// The recovery that follows a stagger (a recovery is followed by the normal one).
pub open spec fn spec_recover_state(s: StaggerState) -> StaggerState {
    match s {
        StaggerState::StanceBreak => StaggerState::StanceBreakRecover,
        StaggerState::Fall => StaggerState::FallRecover,
        _ => StaggerState::NormalRecover,
    }
}

/// Each stagger recovers into its own recovery phase: the recovery of a
/// stagger is a recovery, two different staggers recover differently, and
/// the stance break and the fall keep their kind (`StanceBreakRecover`,
/// `FallRecover`), the normal stagger recovering normally.
pub proof fn lemma_recover_own_phase(s1: StaggerState, s2: StaggerState)
    ensures
        !spec_is_recovering(s1) ==> spec_is_recovering(spec_recover_state(s1)),
        !spec_is_recovering(s1) && !spec_is_recovering(s2) && s1 != s2 ==> spec_recover_state(s1)
            != spec_recover_state(s2),
        spec_recover_state(StaggerState::Normal) == StaggerState::NormalRecover,
        spec_recover_state(StaggerState::StanceBreak) == StaggerState::StanceBreakRecover,
        spec_recover_state(StaggerState::Fall) == StaggerState::FallRecover,
{
}

impl StaggerState {
    pub fn is_recovering(&self) -> (r: bool)
        ensures
            r == spec_is_recovering(*self),
    {
        match self {
            StaggerState::Normal => false,
            StaggerState::StanceBreak => false,
            StaggerState::Fall => false,
            StaggerState::NormalRecover => true,
            StaggerState::StanceBreakRecover => true,
            StaggerState::FallRecover => true,
        }
    }
}

/// How an attack staggers its target: the phase, how long it lasts (in
/// milliseconds, before the caller's duration multiplier) and how hard the
/// target is pushed (before the caller's intensity multiplier).
#[derive(Clone, Copy, Debug, PartialEq, Eq, Structural)]
pub struct StaggerProfile {
    pub state: StaggerState,
    pub duration_millis: u32,
    pub intensity: u32,
}

pub open spec fn profile(state: StaggerState, duration_millis: u32, intensity: u32) -> StaggerProfile {
    StaggerProfile { state, duration_millis, intensity }
}

/// The stagger table of the attacks.
pub open spec fn spec_stagger_profile(attack: Attack) -> StaggerProfile {
    match attack {
        Attack::Light1 => profile(StaggerState::Normal, 300, 75),
        Attack::Light2 => profile(StaggerState::Normal, 300, 250),
        Attack::Light3 => profile(StaggerState::Normal, 250, 150),
        Attack::Heavy1 => profile(StaggerState::Normal, 200, 50),
        Attack::Heavy2 => profile(StaggerState::Normal, 350, 500),
        Attack::Heavy3 => profile(StaggerState::Fall, 300, 0),
        Attack::Dropkick => profile(StaggerState::Normal, 300, 1500),
        Attack::Hammerfist => profile(StaggerState::Fall, 400, 0),
    }
}

/// The stagger that `attack` causes.
pub fn stagger_profile(attack: Attack) -> (p: StaggerProfile)
    ensures
        p == spec_stagger_profile(attack),
{
    match attack {
        Attack::Light1 => StaggerProfile { state: StaggerState::Normal, duration_millis: 300, intensity: 75 },
        Attack::Light2 => StaggerProfile { state: StaggerState::Normal, duration_millis: 300, intensity: 250 },
        Attack::Light3 => StaggerProfile { state: StaggerState::Normal, duration_millis: 250, intensity: 150 },
        Attack::Heavy1 => StaggerProfile { state: StaggerState::Normal, duration_millis: 200, intensity: 50 },
        Attack::Heavy2 => StaggerProfile { state: StaggerState::Normal, duration_millis: 350, intensity: 500 },
        Attack::Heavy3 => StaggerProfile { state: StaggerState::Fall, duration_millis: 300, intensity: 0 },
        Attack::Dropkick => StaggerProfile { state: StaggerState::Normal, duration_millis: 300, intensity: 1500 },
        Attack::Hammerfist => StaggerProfile { state: StaggerState::Fall, duration_millis: 400, intensity: 0 },
    }
}

/// The stagger of a dude: its phase and the push it receives, a direction
/// of type `D` scaled by `intensity`. The timer that ends the phase is kept
/// by the caller.
pub struct Stagger<D> {
    pub state: StaggerState,
    pub direction: D,
    pub intensity: u32,
}

impl<D: Copy> Stagger<D> {
    /// A normal stagger of no intensity.
    pub fn new(direction: D) -> (s: Self)
        ensures
            s.state == StaggerState::Normal,
            s.direction == direction,
            s.intensity == 0,
    {
        Stagger { state: StaggerState::Normal, direction, intensity: 0 }
    }

    /// Enter a new stagger phase.
    pub fn new_state(&mut self, state: StaggerState, direction: D, intensity: u32)
        ensures
            final(self).state == state,
            final(self).direction == direction,
            final(self).intensity == intensity,
    {
        self.state = state;
        self.direction = direction;
        self.intensity = intensity;
    }

    /// Enter the stagger that `attack` causes, pushed along `direction`.
    /// Returns the attack's stagger profile (its duration is for the timer).
    pub fn stagger_from_attack(&mut self, attack: Attack, direction: D) -> (p: StaggerProfile)
        ensures
            p == spec_stagger_profile(attack),
            final(self).state == p.state,
            final(self).direction == direction,
            final(self).intensity == p.intensity,
    {
        let p = stagger_profile(attack);
        self.new_state(p.state, direction, p.intensity);
        p
    }

    pub fn state(&self) -> (s: StaggerState)
        ensures
            s == self.state,
    {
        self.state
    }

    /// Move on to the recovery of the current stagger.
    pub fn set_recover_state(&mut self)
        ensures
            final(self).state == spec_recover_state(old(self).state),
            final(self).direction == old(self).direction,
            final(self).intensity == old(self).intensity,
    {
        let next_state = match self.state {
            StaggerState::Normal => StaggerState::NormalRecover,
            StaggerState::StanceBreak => StaggerState::StanceBreakRecover,
            StaggerState::Fall => StaggerState::FallRecover,
            _ => StaggerState::NormalRecover,
        };
        self.state = next_state;
    }
}

/// The recovery of a stagger that is not yet recovering is recovering.
pub proof fn lemma_recover_is_recovering(s: StaggerState)
    ensures
        spec_is_recovering(spec_recover_state(s)),
{
}

} // verus!
