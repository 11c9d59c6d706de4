use dude_brawl::animations::{
    animation_action, animation_clip_index, dude_state_animation_enemy,
    dude_state_animation_player, enemy_facing, player_facing, AnimationAction, EnemyAnimations,
    Facing, PlayerAnimations, StalkSide,
};
use dude_brawl::assets::DudeAnimations;
use dude_brawl::dude::{
    stagger_profile, Attack, AttackForm, DudeState, EffectGraphic, ParryState, Stagger,
    StaggerState,
};
use dude_brawl::vector::IVec2;

#[test]
fn default_attacks() {
    assert_eq!(AttackForm::Nothing.to_default_attack(), None);
    assert_eq!(AttackForm::Light.to_default_attack(), Some(Attack::Light1));
    assert_eq!(AttackForm::Heavy.to_default_attack(), Some(Attack::Heavy1));
    assert_eq!(AttackForm::SpecialLight.to_default_attack(), Some(Attack::Hammerfist));
    assert_eq!(AttackForm::SpecialHeavy.to_default_attack(), Some(Attack::Dropkick));
}

#[test]
fn combo_table() {
    assert_eq!(Attack::Light1.to_combo_attack(AttackForm::Light), Some(Attack::Light2));
    assert_eq!(Attack::Light2.to_combo_attack(AttackForm::Light), Some(Attack::Light3));
    assert_eq!(Attack::Light3.to_combo_attack(AttackForm::Light), Some(Attack::Light1));
    assert_eq!(Attack::Light1.to_combo_attack(AttackForm::Heavy), Some(Attack::Heavy1));
    assert_eq!(Attack::Light2.to_combo_attack(AttackForm::Heavy), Some(Attack::Heavy3));
    assert_eq!(Attack::Light3.to_combo_attack(AttackForm::Heavy), Some(Attack::Heavy2));
    assert_eq!(Attack::Heavy1.to_combo_attack(AttackForm::Light), Some(Attack::Light2));
    assert_eq!(Attack::Heavy1.to_combo_attack(AttackForm::Heavy), Some(Attack::Heavy2));
    assert_eq!(Attack::Heavy2.to_combo_attack(AttackForm::Heavy), Some(Attack::Heavy3));
    assert_eq!(Attack::Heavy3.to_combo_attack(AttackForm::Heavy), Some(Attack::Heavy1));
    assert_eq!(Attack::Heavy2.to_combo_attack(AttackForm::SpecialLight), Some(Attack::Hammerfist));
    assert_eq!(Attack::Light3.to_combo_attack(AttackForm::SpecialHeavy), Some(Attack::Dropkick));
    assert_eq!(Attack::Light1.to_combo_attack(AttackForm::Nothing), None);
    assert_eq!(Attack::Dropkick.to_combo_attack(AttackForm::Light), None);
    assert_eq!(Attack::Hammerfist.to_combo_attack(AttackForm::SpecialLight), None);
}

#[test]
fn attack_effects() {
    let light = Attack::Light1.effect_position_data();
    assert_eq!(light.hitbox_offset, IVec2::new(0, 0));
    assert_eq!((light.half_width, light.half_height), (8, 14));
    assert_eq!(light.magnitude, 20);
    assert_eq!(light.position_offset, IVec2::new(0, 0));
    let heavy = Attack::Heavy1.effect_position_data();
    assert_eq!((heavy.half_width, heavy.half_height, heavy.magnitude), (12, 12, 30));
    let kick = Attack::Dropkick.effect_position_data();
    assert_eq!((kick.half_width, kick.half_height, kick.magnitude), (10, 8, 20));
    assert_eq!(kick.position_offset, IVec2::new(0, -6));
    let fist = Attack::Hammerfist.effect_position_data();
    assert_eq!((fist.half_width, fist.half_height, fist.magnitude), (8, 6, 16));
    assert_eq!(fist.position_offset, IVec2::new(0, -4));

    assert_eq!(Attack::Light1.effect_animation_data(), (EffectGraphic::Arc, true));
    assert_eq!(Attack::Light3.effect_animation_data(), (EffectGraphic::HalfCircle, true));
    assert_eq!(Attack::Heavy1.effect_animation_data(), (EffectGraphic::FlatLine, true));
    assert_eq!(Attack::Heavy3.effect_animation_data(), (EffectGraphic::VerticalLine, false));
    assert_eq!(Attack::Dropkick.effect_animation_data(), (EffectGraphic::Arc, true));
}

#[test]
fn stagger_table_and_recovery() {
    let p = stagger_profile(Attack::Heavy2);
    assert_eq!((p.state, p.duration_millis, p.intensity), (StaggerState::Normal, 350, 500));
    let p = stagger_profile(Attack::Hammerfist);
    assert_eq!((p.state, p.duration_millis, p.intensity), (StaggerState::Fall, 400, 0));

    let mut s = Stagger::new((1, 0));
    assert_eq!(s.state(), StaggerState::Normal);
    let p = s.stagger_from_attack(Attack::Dropkick, (0, -1));
    assert_eq!(p.duration_millis, 300);
    assert_eq!(s.intensity, 1500);
    assert_eq!(s.direction, (0, -1));
    assert!(!s.state().is_recovering());
    s.set_recover_state();
    assert_eq!(s.state(), StaggerState::NormalRecover);
    assert!(s.state().is_recovering());
    s.new_state(StaggerState::Fall, (1, 1), 0);
    s.set_recover_state();
    assert_eq!(s.state(), StaggerState::FallRecover);
    s.set_recover_state();
    assert_eq!(s.state(), StaggerState::NormalRecover);
}

#[test]
fn player_animations_by_state() {
    let c = dude_state_animation_player(DudeState::Idling, Attack::Light1, StaggerState::Normal);
    assert_eq!((c.animation, c.repeat, c.face_up), (PlayerAnimations::Idle, true, false));
    let c = dude_state_animation_player(DudeState::Attacking, Attack::Heavy2, StaggerState::Normal);
    assert_eq!((c.animation, c.repeat), (PlayerAnimations::Heavy2, false));
    let c = dude_state_animation_player(DudeState::Recovering, Attack::Dropkick, StaggerState::Normal);
    assert_eq!(c.animation, PlayerAnimations::DropkickRecover);
    let c = dude_state_animation_player(DudeState::Staggering, Attack::Light1, StaggerState::Fall);
    assert_eq!((c.animation, c.face_up), (PlayerAnimations::Fall, true));
    let c = dude_state_animation_player(
        DudeState::Parrying(ParryState::Success),
        Attack::Light1,
        StaggerState::Normal,
    );
    assert_eq!(c.animation, PlayerAnimations::ParrySuccess);
    assert_eq!(PlayerAnimations::HammerfistRecover.index(), 27);
    assert_eq!(PlayerAnimations::Heavy1.index(), 10);
}

#[test]
fn enemy_animations_by_state() {
    let c = dude_state_animation_enemy(
        DudeState::Attacking,
        Attack::Light3,
        StaggerState::Normal,
        StalkSide::Forward,
    );
    assert_eq!(c.animation, EnemyAnimations::Light1);
    let c = dude_state_animation_enemy(
        DudeState::Recovering,
        Attack::Heavy1,
        StaggerState::Normal,
        StalkSide::Forward,
    );
    assert_eq!(c.animation, EnemyAnimations::Heavy1Recover);
    let c = dude_state_animation_enemy(
        DudeState::Stalking,
        Attack::Light1,
        StaggerState::Normal,
        StalkSide::Left,
    );
    assert_eq!((c.animation, c.repeat), (EnemyAnimations::StalkingLeft, true));
    let c = dude_state_animation_enemy(
        DudeState::Staggering,
        Attack::Light1,
        StaggerState::StanceBreakRecover,
        StalkSide::Back,
    );
    assert_eq!((c.animation, c.face_up), (EnemyAnimations::StanceBreakRecover, false));
    assert_eq!(EnemyAnimations::StalkingLeft.index(), 16);
}

#[test]
fn animation_indices() {
    assert_eq!(DudeAnimations::Idle.index(), 0);
    assert_eq!(DudeAnimations::Heavy1.index(), 9);
    assert_eq!(DudeAnimations::StaggerFlying.index(), 15);
    assert_eq!(animation_clip_index(3, 5), 29);
}

#[test]
fn animation_facing_and_actions() {
    assert_eq!(player_facing(DudeState::Dashing), None);
    assert_eq!(player_facing(DudeState::Recovering), Some(Facing::Attack));
    assert_eq!(player_facing(DudeState::Parrying(ParryState::Start)), Some(Facing::Movement));
    assert_eq!(enemy_facing(DudeState::Dying), None);
    assert_eq!(enemy_facing(DudeState::Attacking), Some(Facing::Attack));
    assert_eq!(enemy_facing(DudeState::Stalking), Some(Facing::Movement));

    assert_eq!(animation_action(true, true, false, true), AnimationAction::Keep);
    assert_eq!(animation_action(false, false, true, false), AnimationAction::Keep);
    assert_eq!(animation_action(false, true, true, true), AnimationAction::Continue);
    assert_eq!(animation_action(false, true, true, false), AnimationAction::Play { repeat: true });
    assert_eq!(animation_action(false, false, false, true), AnimationAction::Play { repeat: false });
}
