//! Which animation a dude shows in each state.
use vstd::prelude::*;
use crate::dude::{Attack, DudeState, ParryState, StaggerState};

verus! {

/// The animations of the player, in the order of the asset collection.
#[derive(Clone, Copy, Debug, PartialEq, Eq, Structural)]
pub enum PlayerAnimations {
    Idle,
    Run,
    Light1,
    Light1Recover,
    Light2,
    Light2Recover,
    Light3,
    Light3Recover,
    StaggerNormal,
    StaggerNormalRecover,
    Heavy1,
    Heavy1Recover,
    Heavy2,
    Heavy2Recover,
    Heavy3,
    Heavy3Recover,
    StanceBreak,
    StanceBreakRecover,
    Parry,
    ParryFail,
    ParrySuccess,
    Dash,
    Fall,
    FallRecover,
    Dropkick,
    DropkickRecover,
    Hammerfist,
    HammerfistRecover,
}

/// The animations of an enemy, in the order of the asset collection.
#[derive(Clone, Copy, Debug, PartialEq, Eq, Structural)]
pub enum EnemyAnimations {
    Idle,
    Run,
    Light1,
    Light1Recover,
    Heavy1,
    Heavy1Recover,
    StaggerNormal,
    StaggerNormalRecover,
    StanceBreak,
    StanceBreakRecover,
    Fall,
    FallRecover,
    Stalking,
    StalkingForward,
    StalkingRight,
    StalkingBack,
    StalkingLeft,
}

impl PlayerAnimations {
    pub open spec fn spec_index(self) -> usize {
        match self {
            PlayerAnimations::Idle => 0,
            PlayerAnimations::Run => 1,
            PlayerAnimations::Light1 => 2,
            PlayerAnimations::Light1Recover => 3,
            PlayerAnimations::Light2 => 4,
            PlayerAnimations::Light2Recover => 5,
            PlayerAnimations::Light3 => 6,
            PlayerAnimations::Light3Recover => 7,
            PlayerAnimations::StaggerNormal => 8,
            PlayerAnimations::StaggerNormalRecover => 9,
            PlayerAnimations::Heavy1 => 10,
            PlayerAnimations::Heavy1Recover => 11,
            PlayerAnimations::Heavy2 => 12,
            PlayerAnimations::Heavy2Recover => 13,
            PlayerAnimations::Heavy3 => 14,
            PlayerAnimations::Heavy3Recover => 15,
            PlayerAnimations::StanceBreak => 16,
            PlayerAnimations::StanceBreakRecover => 17,
            PlayerAnimations::Parry => 18,
            PlayerAnimations::ParryFail => 19,
            PlayerAnimations::ParrySuccess => 20,
            PlayerAnimations::Dash => 21,
            PlayerAnimations::Fall => 22,
            PlayerAnimations::FallRecover => 23,
            PlayerAnimations::Dropkick => 24,
            PlayerAnimations::DropkickRecover => 25,
            PlayerAnimations::Hammerfist => 26,
            PlayerAnimations::HammerfistRecover => 27,
        }
    }

    /// The index of the animation's texture in the asset collection.
    pub fn index(self) -> (i: usize)
        ensures
            i == self.spec_index(),
    {
        match self {
            PlayerAnimations::Idle => 0,
            PlayerAnimations::Run => 1,
            PlayerAnimations::Light1 => 2,
            PlayerAnimations::Light1Recover => 3,
            PlayerAnimations::Light2 => 4,
            PlayerAnimations::Light2Recover => 5,
            PlayerAnimations::Light3 => 6,
            PlayerAnimations::Light3Recover => 7,
            PlayerAnimations::StaggerNormal => 8,
            PlayerAnimations::StaggerNormalRecover => 9,
            PlayerAnimations::Heavy1 => 10,
            PlayerAnimations::Heavy1Recover => 11,
            PlayerAnimations::Heavy2 => 12,
            PlayerAnimations::Heavy2Recover => 13,
            PlayerAnimations::Heavy3 => 14,
            PlayerAnimations::Heavy3Recover => 15,
            PlayerAnimations::StanceBreak => 16,
            PlayerAnimations::StanceBreakRecover => 17,
            PlayerAnimations::Parry => 18,
            PlayerAnimations::ParryFail => 19,
            PlayerAnimations::ParrySuccess => 20,
            PlayerAnimations::Dash => 21,
            PlayerAnimations::Fall => 22,
            PlayerAnimations::FallRecover => 23,
            PlayerAnimations::Dropkick => 24,
            PlayerAnimations::DropkickRecover => 25,
            PlayerAnimations::Hammerfist => 26,
            PlayerAnimations::HammerfistRecover => 27,
        }
    }
}

impl EnemyAnimations {
    pub open spec fn spec_index(self) -> usize {
        match self {
            EnemyAnimations::Idle => 0,
            EnemyAnimations::Run => 1,
            EnemyAnimations::Light1 => 2,
            EnemyAnimations::Light1Recover => 3,
            EnemyAnimations::Heavy1 => 4,
            EnemyAnimations::Heavy1Recover => 5,
            EnemyAnimations::StaggerNormal => 6,
            EnemyAnimations::StaggerNormalRecover => 7,
            EnemyAnimations::StanceBreak => 8,
            EnemyAnimations::StanceBreakRecover => 9,
            EnemyAnimations::Fall => 10,
            EnemyAnimations::FallRecover => 11,
            EnemyAnimations::Stalking => 12,
            EnemyAnimations::StalkingForward => 13,
            EnemyAnimations::StalkingRight => 14,
            EnemyAnimations::StalkingBack => 15,
            EnemyAnimations::StalkingLeft => 16,
        }
    }

    /// The index of the animation's texture in the asset collection.
    pub fn index(self) -> (i: usize)
        ensures
            i == self.spec_index(),
    {
        match self {
            EnemyAnimations::Idle => 0,
            EnemyAnimations::Run => 1,
            EnemyAnimations::Light1 => 2,
            EnemyAnimations::Light1Recover => 3,
            EnemyAnimations::Heavy1 => 4,
            EnemyAnimations::Heavy1Recover => 5,
            EnemyAnimations::StaggerNormal => 6,
            EnemyAnimations::StaggerNormalRecover => 7,
            EnemyAnimations::StanceBreak => 8,
            EnemyAnimations::StanceBreakRecover => 9,
            EnemyAnimations::Fall => 10,
            EnemyAnimations::FallRecover => 11,
            EnemyAnimations::Stalking => 12,
            EnemyAnimations::StalkingForward => 13,
            EnemyAnimations::StalkingRight => 14,
            EnemyAnimations::StalkingBack => 15,
            EnemyAnimations::StalkingLeft => 16,
        }
    }
}

/// The animation a state shows: which one, whether it repeats, and whether
/// it is always shown facing up (falls have a single direction).
#[derive(Clone, Copy, Debug, PartialEq, Eq, Structural)]
pub struct AnimationChoice<A> {
    pub animation: A,
    pub repeat: bool,
    pub face_up: bool,
}

/// Where a stalking enemy moves relative to the direction it faces, by the
/// angle between them: within a quarter turn forward, within three quarters
/// to the right or left, else back.
#[derive(Clone, Copy, Debug, PartialEq, Eq, Structural)]
pub enum StalkSide {
    Forward,
    Right,
    Back,
    Left,
}

pub open spec fn choice<A>(animation: A, repeat: bool) -> AnimationChoice<A> {
    AnimationChoice { animation, repeat, face_up: false }
}

/// The player's attack animations.
pub open spec fn player_attack_animation(attack: Attack) -> PlayerAnimations {
    match attack {
        Attack::Light1 => PlayerAnimations::Light1,
        Attack::Light2 => PlayerAnimations::Light2,
        Attack::Light3 => PlayerAnimations::Light3,
        Attack::Heavy1 => PlayerAnimations::Heavy1,
        Attack::Heavy2 => PlayerAnimations::Heavy2,
        Attack::Heavy3 => PlayerAnimations::Heavy3,
        Attack::Dropkick => PlayerAnimations::Dropkick,
        Attack::Hammerfist => PlayerAnimations::Hammerfist,
    }
}

/// The player's recovery animations.
pub open spec fn player_recover_animation(attack: Attack) -> PlayerAnimations {
    match attack {
        Attack::Light1 => PlayerAnimations::Light1Recover,
        Attack::Light2 => PlayerAnimations::Light2Recover,
        Attack::Light3 => PlayerAnimations::Light3Recover,
        Attack::Heavy1 => PlayerAnimations::Heavy1Recover,
        Attack::Heavy2 => PlayerAnimations::Heavy2Recover,
        Attack::Heavy3 => PlayerAnimations::Heavy3Recover,
        Attack::Dropkick => PlayerAnimations::DropkickRecover,
        Attack::Hammerfist => PlayerAnimations::HammerfistRecover,
    }
}

/// The player's stagger animations.
pub open spec fn player_stagger_animation(s: StaggerState) -> PlayerAnimations {
    match s {
        StaggerState::Normal => PlayerAnimations::StaggerNormal,
        StaggerState::StanceBreak => PlayerAnimations::StanceBreak,
        StaggerState::Fall => PlayerAnimations::Fall,
        StaggerState::NormalRecover => PlayerAnimations::StaggerNormalRecover,
        StaggerState::StanceBreakRecover => PlayerAnimations::StanceBreakRecover,
        StaggerState::FallRecover => PlayerAnimations::FallRecover,
    }
}

/// The animation of the player in a state.
pub open spec fn spec_player_animation(state: DudeState, attack: Attack, stagger_state: StaggerState) -> AnimationChoice<PlayerAnimations> {
    match state {
        DudeState::Idling => choice(PlayerAnimations::Idle, true),
        DudeState::Running => choice(PlayerAnimations::Run, true),
        DudeState::Attacking => choice(player_attack_animation(attack), false),
        DudeState::Recovering => choice(player_recover_animation(attack), false),
        DudeState::Staggering => {
            let a = player_stagger_animation(stagger_state);
            AnimationChoice {
                animation: a,
                repeat: false,
                face_up: a == PlayerAnimations::Fall || a == PlayerAnimations::FallRecover,
            }
        },
        DudeState::Parrying(p) => choice(
            match p {
                ParryState::Start => PlayerAnimations::Parry,
                ParryState::Fail => PlayerAnimations::ParryFail,
                ParryState::Success => PlayerAnimations::ParrySuccess,
            },
            false,
        ),
        DudeState::Stalking => choice(PlayerAnimations::Idle, true),
        _ => choice(PlayerAnimations::Idle, false),
    }
}

/// The enemy's stagger animations.
pub open spec fn enemy_stagger_animation(s: StaggerState) -> EnemyAnimations {
    match s {
        StaggerState::Normal => EnemyAnimations::StaggerNormal,
        StaggerState::StanceBreak => EnemyAnimations::StanceBreak,
        StaggerState::Fall => EnemyAnimations::Fall,
        StaggerState::NormalRecover => EnemyAnimations::StaggerNormalRecover,
        StaggerState::StanceBreakRecover => EnemyAnimations::StanceBreakRecover,
        StaggerState::FallRecover => EnemyAnimations::FallRecover,
    }
}

/// The animation of an enemy in a state. Enemies only have the light and the
/// heavy first attack; any other attack shows the light one.
pub open spec fn spec_enemy_animation(state: DudeState, attack: Attack, stagger_state: StaggerState, side: StalkSide) -> AnimationChoice<EnemyAnimations> {
    match state {
        DudeState::Idling => choice(EnemyAnimations::Idle, true),
        DudeState::Running => choice(EnemyAnimations::Run, true),
        DudeState::Attacking => choice(
            if attack == Attack::Heavy1 { EnemyAnimations::Heavy1 } else { EnemyAnimations::Light1 },
            false,
        ),
        DudeState::Recovering => choice(
            if attack == Attack::Heavy1 { EnemyAnimations::Heavy1Recover } else { EnemyAnimations::Light1Recover },
            false,
        ),
        DudeState::Staggering => {
            let a = enemy_stagger_animation(stagger_state);
            AnimationChoice {
                animation: a,
                repeat: false,
                face_up: a == EnemyAnimations::Fall || a == EnemyAnimations::FallRecover,
            }
        },
        DudeState::Stalking => choice(
            match side {
                StalkSide::Forward => EnemyAnimations::StalkingForward,
                StalkSide::Right => EnemyAnimations::StalkingRight,
                StalkSide::Back => EnemyAnimations::StalkingBack,
                StalkSide::Left => EnemyAnimations::StalkingLeft,
            },
            true,
        ),
        _ => choice(EnemyAnimations::Idle, false),
    }
}

/// The animation of the player in the given state. Dashing shows no
/// animation of its own and falls back to a still idle one; a dying player
/// is not animated here.
pub fn dude_state_animation_player(state: DudeState, attack: Attack, stagger_state: StaggerState) -> (c: AnimationChoice<PlayerAnimations>)
    requires
        state != DudeState::Dying,
    ensures
        c == spec_player_animation(state, attack, stagger_state),
{
    match state {
        DudeState::Idling => AnimationChoice { animation: PlayerAnimations::Idle, repeat: true, face_up: false },
        DudeState::Running => AnimationChoice { animation: PlayerAnimations::Run, repeat: true, face_up: false },
        DudeState::Attacking => {
            let animation = match attack {
                Attack::Light1 => PlayerAnimations::Light1,
                Attack::Light2 => PlayerAnimations::Light2,
                Attack::Light3 => PlayerAnimations::Light3,
                Attack::Heavy1 => PlayerAnimations::Heavy1,
                Attack::Heavy2 => PlayerAnimations::Heavy2,
                Attack::Heavy3 => PlayerAnimations::Heavy3,
                Attack::Dropkick => PlayerAnimations::Dropkick,
                Attack::Hammerfist => PlayerAnimations::Hammerfist,
            };
            AnimationChoice { animation, repeat: false, face_up: false }
        },
        DudeState::Recovering => {
            let animation = match attack {
                Attack::Light1 => PlayerAnimations::Light1Recover,
                Attack::Light2 => PlayerAnimations::Light2Recover,
                Attack::Light3 => PlayerAnimations::Light3Recover,
                Attack::Heavy1 => PlayerAnimations::Heavy1Recover,
                Attack::Heavy2 => PlayerAnimations::Heavy2Recover,
                Attack::Heavy3 => PlayerAnimations::Heavy3Recover,
                Attack::Dropkick => PlayerAnimations::DropkickRecover,
                Attack::Hammerfist => PlayerAnimations::HammerfistRecover,
            };
            AnimationChoice { animation, repeat: false, face_up: false }
        },
        DudeState::Staggering => {
            let animation = match stagger_state {
                StaggerState::Normal => PlayerAnimations::StaggerNormal,
                StaggerState::StanceBreak => PlayerAnimations::StanceBreak,
                StaggerState::Fall => PlayerAnimations::Fall,
                StaggerState::NormalRecover => PlayerAnimations::StaggerNormalRecover,
                StaggerState::StanceBreakRecover => PlayerAnimations::StanceBreakRecover,
                StaggerState::FallRecover => PlayerAnimations::FallRecover,
            };
            let face_up = animation == PlayerAnimations::Fall || animation == PlayerAnimations::FallRecover;
            AnimationChoice { animation, repeat: false, face_up }
        },
        DudeState::Parrying(parry_state) => {
            let animation = match parry_state {
                ParryState::Start => PlayerAnimations::Parry,
                ParryState::Fail => PlayerAnimations::ParryFail,
                ParryState::Success => PlayerAnimations::ParrySuccess,
            };
            AnimationChoice { animation, repeat: false, face_up: false }
        },
        DudeState::Stalking => AnimationChoice { animation: PlayerAnimations::Idle, repeat: true, face_up: false },
        _ => AnimationChoice { animation: PlayerAnimations::Idle, repeat: false, face_up: false },
    }
}

/// The animation of an enemy in the given state; `side` is where a stalking
/// enemy moves. A dying enemy is not animated here.
pub fn dude_state_animation_enemy(state: DudeState, attack: Attack, stagger_state: StaggerState, side: StalkSide) -> (c: AnimationChoice<EnemyAnimations>)
    requires
        state != DudeState::Dying,
    ensures
        c == spec_enemy_animation(state, attack, stagger_state, side),
{
    match state {
        DudeState::Idling => AnimationChoice { animation: EnemyAnimations::Idle, repeat: true, face_up: false },
        DudeState::Running => AnimationChoice { animation: EnemyAnimations::Run, repeat: true, face_up: false },
        DudeState::Attacking => {
            let animation = match attack {
                Attack::Light1 => EnemyAnimations::Light1,
                Attack::Heavy1 => EnemyAnimations::Heavy1,
                _ => EnemyAnimations::Light1,
            };
            AnimationChoice { animation, repeat: false, face_up: false }
        },
        DudeState::Recovering => {
            let animation = match attack {
                Attack::Light1 => EnemyAnimations::Light1Recover,
                Attack::Heavy1 => EnemyAnimations::Heavy1Recover,
                _ => EnemyAnimations::Light1Recover,
            };
            AnimationChoice { animation, repeat: false, face_up: false }
        },
        DudeState::Staggering => {
            let animation = match stagger_state {
                StaggerState::Normal => EnemyAnimations::StaggerNormal,
                StaggerState::StanceBreak => EnemyAnimations::StanceBreak,
                StaggerState::Fall => EnemyAnimations::Fall,
                StaggerState::NormalRecover => EnemyAnimations::StaggerNormalRecover,
                StaggerState::StanceBreakRecover => EnemyAnimations::StanceBreakRecover,
                StaggerState::FallRecover => EnemyAnimations::FallRecover,
            };
            let face_up = animation == EnemyAnimations::Fall || animation == EnemyAnimations::FallRecover;
            AnimationChoice { animation, repeat: false, face_up }
        },
        DudeState::Stalking => {
            let animation = match side {
                StalkSide::Forward => EnemyAnimations::StalkingForward,
                StalkSide::Right => EnemyAnimations::StalkingRight,
                StalkSide::Back => EnemyAnimations::StalkingBack,
                StalkSide::Left => EnemyAnimations::StalkingLeft,
            };
            AnimationChoice { animation, repeat: true, face_up: false }
        },
        _ => AnimationChoice { animation: EnemyAnimations::Idle, repeat: false, face_up: false },
    }
}

/// Which direction the animation of a dude faces.
#[derive(Clone, Copy, Debug, PartialEq, Eq, Structural)]
pub enum Facing {
    /// The direction it moves (or last moved) in.
    Movement,
    /// The direction of its attack.
    Attack,
}

/// The direction the player's animation faces: that of the attack while
/// attacking or recovering, else that of the movement. A dashing player
/// keeps its animation (`None`).
pub fn player_facing(state: DudeState) -> (f: Option<Facing>)
    requires
        state != DudeState::Dying,
        state != DudeState::Stalking,
    ensures
        f == (if state == DudeState::Dashing {
            None
        } else if state == DudeState::Attacking || state == DudeState::Recovering {
            Some(Facing::Attack)
        } else {
            Some(Facing::Movement)
        }),
{
    match state {
        DudeState::Dashing => None,
        DudeState::Attacking | DudeState::Recovering => Some(Facing::Attack),
        _ => Some(Facing::Movement),
    }
}

/// The direction an enemy's animation faces: that of the attack while
/// attacking or recovering, else that of the movement. A dying enemy keeps
/// its animation (`None`); enemies never parry or dash.
pub fn enemy_facing(state: DudeState) -> (f: Option<Facing>)
    requires
        state != DudeState::Dashing,
        !(state is Parrying),
    ensures
        f == (if state == DudeState::Dying {
            None
        } else if state == DudeState::Attacking || state == DudeState::Recovering {
            Some(Facing::Attack)
        } else {
            Some(Facing::Movement)
        }),
{
    match state {
        DudeState::Dying => None,
        DudeState::Attacking | DudeState::Recovering => Some(Facing::Attack),
        _ => Some(Facing::Movement),
    }
}

/// What to do with the animation player when a state asks for an animation.
#[derive(Clone, Copy, Debug, PartialEq, Eq, Structural)]
pub enum AnimationAction {
    /// Leave the current animation playing.
    Keep,
    /// Start the animation from its beginning, repeating it or not.
    Play { repeat: bool },
    /// Switch to the repeating animation at the point the current one
    /// reached (the same animation seen from another direction).
    Continue,
}

/// What to do when the state asks for an animation: keep it when its clip
/// is already playing, or when it plays once and was already started;
/// otherwise start it, or, where `continue_repeating` holds and a repeating
/// animation only turned, continue it where it was.
pub fn animation_action(same_clip: bool, repeat: bool, same_animation: bool, continue_repeating: bool) -> (a: AnimationAction)
    ensures
        a == (if same_clip || (!repeat && same_animation) {
            AnimationAction::Keep
        } else if repeat && same_animation && continue_repeating {
            AnimationAction::Continue
        } else {
            AnimationAction::Play { repeat }
        }),
{
    if same_clip {
        return AnimationAction::Keep;
    }
    if !repeat && same_animation {
        return AnimationAction::Keep;
    }
    if repeat && same_animation && continue_repeating {
        AnimationAction::Continue
    } else {
        AnimationAction::Play { repeat }
    }
}

/// The index of the clip of an animation seen from one of eight directions:
/// each animation has eight clips, one per direction.
pub fn animation_clip_index(animation_index: usize, direction_offset: usize) -> (i: usize)
    requires
        direction_offset < 8,
        animation_index < 0x1000_0000,
    ensures
        i == animation_index * 8 + direction_offset,
{
    animation_index * 8 + direction_offset
}

/// Only states that repeat forever loop their animation: idling, running and
/// (for enemies) stalking.
pub proof fn lemma_repeating_states(state: DudeState, attack: Attack, s: StaggerState, side: StalkSide)
    ensures
        spec_player_animation(state, attack, s).repeat <==> (state == DudeState::Idling || state
            == DudeState::Running || state == DudeState::Stalking),
        spec_enemy_animation(state, attack, s, side).repeat <==> (state == DudeState::Idling || state
            == DudeState::Running || state == DudeState::Stalking),
{
}

} // verus!
