use dude_brawl::assets::DudeAnimations;
use dude_brawl::basic_player_state::{Attack as Input, PlayerAttackState, PlayerState, PlayerStateMachine as BasicPlayer};
use dude_brawl::state::{dude_state_animation, dude_state_hitbox_frames, Attack, DudeState, Stagger, StaggerState};

#[test]
fn basic_player_combo() {
    let mut m = BasicPlayer::new();
    assert!(m.can_run() && m.can_punch());
    m.transition_attack(Input::Light);
    assert!(m.attack_state_eq(PlayerAttackState::Light1));
    assert_eq!(m.state_animation(), (2, false));
    assert_eq!(m.state_hitbox_frames(), (0, 1));
    m.set_just_changed(false);
    m.transition_attack(Input::Light);
    assert_eq!(m.chained_attack(), Input::Light);
    m.transition_idle(true);
    assert_eq!(m.attack_state(), PlayerAttackState::Light2);
    assert_eq!(m.chained_attack(), Input::Nothing);
    m.set_just_changed(false);
    m.transition_attack(Input::Heavy);
    m.transition_chain_attack();
    // Light2 does not continue with a heavy attack: the player recovers.
    assert_eq!(m.state(), PlayerState::Recovering);
    assert_eq!(m.previous_state(), PlayerState::Attacking);
    assert!(m.attack_chain_timer_starts());
    assert_eq!(m.state_animation(), (5, false));
    assert_eq!(m.state_hitbox_frames(), (0, 0));
    m.set_just_changed(false);
    // Within the chain buffer a light input finishes the combo.
    m.transition_attack(Input::Light);
    assert_eq!(m.attack_state(), PlayerAttackState::Light3);
    assert_eq!(m.state_animation(), (11, false));
    m.set_just_changed(false);
    m.transition_idle(true);
    assert_eq!(m.state(), PlayerState::Recovering);
    m.set_just_changed(false);
    m.handle_attack_chain_timer(true);
    m.transition_attack(Input::Heavy);
    assert_eq!(m.attack_state(), PlayerAttackState::Heavy1);
}

#[test]
fn basic_player_runs() {
    let mut m = BasicPlayer::new();
    m.transition_run(false);
    assert_eq!(m.state(), PlayerState::Running);
    m.transition_run(true);
    assert_eq!(m.state(), PlayerState::Running);
    m.set_just_changed(false);
    m.transition_run(true);
    assert_eq!(m.state(), PlayerState::Idling);
    assert_eq!(m.combo_attack(Input::Heavy), Some(PlayerAttackState::Heavy1));
    m.set_just_changed(false);
    m.set_state(PlayerState::Running);
    // The state already changed this frame: the attack does not start.
    m.default_attack(Input::Heavy);
    assert_eq!(m.state(), PlayerState::Running);
}

#[test]
fn dude_state_animations_and_hitboxes() {
    assert_eq!(
        dude_state_animation(DudeState::Idling, Attack::Light1, StaggerState::Normal),
        (DudeAnimations::Idle, true)
    );
    assert_eq!(
        dude_state_animation(DudeState::Recovering, Attack::Heavy3, StaggerState::Normal),
        (DudeAnimations::Heavy3Recover, false)
    );
    assert_eq!(
        dude_state_animation(DudeState::Staggering, Attack::Light1, StaggerState::Flying),
        (DudeAnimations::StaggerFlying, false)
    );
    assert_eq!(dude_state_hitbox_frames(DudeState::Attacking, Attack::Light2), (0, 1));
    assert_eq!(dude_state_hitbox_frames(DudeState::Attacking, Attack::Heavy3), (1, 2));
    assert_eq!(dude_state_hitbox_frames(DudeState::Running, Attack::Heavy3), (0, 0));
}

#[test]
fn stagger_on_attack_table() {
    let mut s = Stagger { state: StaggerState::Normal, direction: (0, 1), intensity: 0 };
    assert_eq!(s.on_attack(Attack::Light3, (1, 0)), (StaggerState::Flying, 200, 0));
    assert_eq!(s.state, StaggerState::Flying);
    assert_eq!(s.direction, (1, 0));
    assert_eq!(s.on_attack(Attack::Heavy3, (0, -1)), (StaggerState::Normal, 250, 700));
    assert_eq!(s.intensity, 700);
    assert_eq!(s.on_attack(Attack::Light1, (0, -1)).2, 50);
}
