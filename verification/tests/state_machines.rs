use dude_brawl::animations::EnemyAnimations;
use dude_brawl::dude::{Attack, AttackForm, DudeState, ParryState, StaggerState};
use dude_brawl::enemy_state::{crowd_speed_eighths, EnemyStateMachine, StaggerTransition};
use dude_brawl::player_state::{HitOutcome, PlayerStateMachine};

#[test]
fn player_state_changes_once_per_frame() {
    let mut m = PlayerStateMachine::new((1, 0));
    assert_eq!(m.state(), DudeState::Idling);
    assert!(m.can_run());
    m.set_state(DudeState::Running);
    assert_eq!(m.state(), DudeState::Running);
    assert_eq!(m.previous_state(), DudeState::Idling);
    assert!(m.just_changed());
    m.set_state(DudeState::Idling);
    assert_eq!(m.state(), DudeState::Running);
    m.set_just_changed(false);
    m.set_state(DudeState::Idling);
    assert_eq!(m.state(), DudeState::Idling);
}

#[test]
fn player_combo_chain() {
    let mut m = PlayerStateMachine::new((1, 0));
    assert!(m.transition_attack(AttackForm::Light));
    assert_eq!(m.state(), DudeState::Attacking);
    assert_eq!(m.attack(), Attack::Light1);
    m.set_just_changed(false);
    // During the attack the next input is chained.
    assert!(!m.transition_attack(AttackForm::Heavy));
    assert_eq!(m.chained_attack(), AttackForm::Heavy);
    assert_eq!(m.attack(), Attack::Light1);
    // When the animation ends the chained attack follows the combo table.
    assert!(m.transition_chain_attack(true));
    assert_eq!(m.attack(), Attack::Heavy1);
    assert_eq!(m.chained_attack(), AttackForm::Nothing);
    m.set_just_changed(false);
    // Nothing chained: recover when standing still.
    assert!(!m.transition_chain_attack(true));
    assert_eq!(m.state(), DudeState::Recovering);
    m.set_just_changed(false);
    // Within the chain buffer the next input continues the combo.
    assert!(m.transition_attack(AttackForm::Heavy));
    assert_eq!(m.attack(), Attack::Heavy2);
}

#[test]
fn player_runs_after_a_ground_attack_when_moving() {
    let mut m = PlayerStateMachine::new((0, 1));
    m.transition_attack(AttackForm::SpecialLight);
    assert_eq!(m.attack(), Attack::Hammerfist);
    m.set_just_changed(false);
    // A jump attack always ends recovering.
    m.transition_chain_attack(false);
    assert_eq!(m.state(), DudeState::Recovering);
    assert!(!m.can_run());

    let mut m = PlayerStateMachine::new((0, 1));
    m.transition_attack(AttackForm::Light);
    m.set_just_changed(false);
    m.transition_chain_attack(false);
    assert_eq!(m.state(), DudeState::Running);
}

#[test]
fn player_chain_buffer_expires() {
    let mut m = PlayerStateMachine::new((0, 1));
    m.transition_attack(AttackForm::Light);
    m.set_just_changed(false);
    m.transition_chain_attack(true);
    m.set_just_changed(false);
    m.handle_attack_chain_timer(true);
    // After the buffer ran out, the input starts over.
    m.transition_attack(AttackForm::Light);
    assert_eq!(m.attack(), Attack::Light1);
}

#[test]
fn player_stagger() {
    let mut m = PlayerStateMachine::new((0, 1));
    assert_eq!(m.set_stagger_state((1, 0)), 300);
    assert_eq!(m.stagger_state(), StaggerState::Normal);
    assert_eq!(m.new_state(), Some(DudeState::Staggering));
    assert_eq!(m.stagger_linvel(), ((1, 0), 150));
    m.set_stagger_state_recover();
    assert_eq!(m.stagger_state(), StaggerState::NormalRecover);
}

#[test]
fn enemy_attacks_and_staggers() {
    let mut m = EnemyStateMachine::new((1, 0));
    assert_eq!(m.state(), DudeState::Idling);
    m.transition_attack(true, true, (0, 1));
    assert_eq!(m.state(), DudeState::Attacking);
    assert_eq!(m.attack_direction(), (0, 1));
    m.set_just_changed(false);

    // An attacking enemy cannot attack again.
    m.transition_attack(true, true, (1, 0));
    assert_eq!(m.attack_direction(), (0, 1));
    let p = m.set_stagger_state(Attack::Heavy3, (1, 1));
    assert_eq!(p.duration_millis, 300);
    assert_eq!(m.stagger_state(), StaggerState::Fall);
    assert_eq!(m.stagger_linvel(), ((1, 1), 0));
    assert_eq!(m.set_stagger_stance_break_state((0, -1)), 500);
    assert_eq!(m.stagger_state(), StaggerState::StanceBreak);
    m.set_animation_state(EnemyAnimations::Fall);
    assert_eq!(m.animation_state(), EnemyAnimations::Fall);
}

#[test]
fn enemy_stagger_request_wins_once() {
    let mut m = EnemyStateMachine::new((1, 0));
    assert_eq!(m.transition_stagger(), StaggerTransition::Unchanged);
    m.set_new_state(DudeState::Staggering);
    assert_eq!(m.new_state(), Some(DudeState::Staggering));
    assert_eq!(m.transition_stagger(), StaggerTransition::Entered);
    assert_eq!(m.state(), DudeState::Staggering);
    // The state already changed this frame.
    assert_eq!(m.transition_stagger(), StaggerTransition::Unchanged);
    m.set_just_changed(false);
    assert_eq!(m.transition_stagger(), StaggerTransition::Replay);
    m.reset_new_state();
    assert_eq!(m.new_state(), None);
    // A finished stagger recovers, then a finished recovery stalks and the
    // attack timer is not reset.
    assert!(!m.transition_idle(true, false, true));
    assert_eq!(m.stagger_state(), StaggerState::NormalRecover);
    assert!(!m.transition_idle(true, true, false));
    assert_eq!(m.state(), DudeState::Stalking);
}

#[test]
fn enemy_idle_transitions() {
    let mut m = EnemyStateMachine::new((1, 0));
    m.transition_stalking(true, true);
    assert_eq!(m.state(), DudeState::Stalking);
    m.set_just_changed(false);
    m.transition_run(true, true);
    assert_eq!(m.state(), DudeState::Running);
    m.set_just_changed(false);
    assert!(!m.transition_idle(false, false, false));
    assert_eq!(m.state(), DudeState::Idling);
    m.set_just_changed(false);
    m.set_state(DudeState::Recovering);
    m.set_just_changed(false);
    // A finished recovery resets the attack timer.
    assert!(m.transition_idle(true, true, false));
    assert_eq!(m.state(), DudeState::Stalking);
    assert!(m.attack_eq(Attack::Light1) == (m.state() == DudeState::Attacking));
}

#[test]
fn player_hits_parries_and_idle_transitions() {
    let mut m = PlayerStateMachine::new((0, 1));
    m.transition_parry(true);
    assert_eq!(m.state(), DudeState::Parrying(ParryState::Start));
    m.set_just_changed(false);
    assert_eq!(m.take_hit((1, 0)), HitOutcome::Parried);
    assert_eq!(m.state(), DudeState::Parrying(ParryState::Success));
    m.set_just_changed(false);
    m.transition_idle(true, false, true);
    assert_eq!(m.state(), DudeState::Idling);
    m.set_just_changed(false);

    assert_eq!(m.take_hit((1, 0)), HitOutcome::Staggered { duration_millis: 300 });
    assert_eq!(m.transition_stagger(), StaggerTransition::Entered);
    m.set_just_changed(false);
    m.reset_new_state();
    m.transition_idle(false, true, true);
    assert_eq!(m.stagger_state(), StaggerState::NormalRecover);
    assert!(m.can_run());
    m.transition_idle(true, false, true);
    assert_eq!(m.state(), DudeState::Idling);

    m.set_just_changed(false);
    m.set_state(DudeState::Dashing);
    assert_eq!(m.take_hit((1, 0)), HitOutcome::Ignored);
    m.set_just_changed(false);
    m.set_state(DudeState::Parrying(ParryState::Start));
    m.set_just_changed(false);
    m.transition_idle(true, false, true);
    assert_eq!(m.state(), DudeState::Parrying(ParryState::Fail));
}

#[test]
fn player_run_transitions() {
    let mut m = PlayerStateMachine::new((0, 1));
    m.transition_run(false);
    assert_eq!(m.state(), DudeState::Running);
    m.set_just_changed(false);
    m.transition_run(false);
    assert_eq!(m.state(), DudeState::Running);
    m.transition_run(true);
    assert_eq!(m.state(), DudeState::Idling);
    assert!(!m.attack_chain_timer_starts());
}

#[test]
fn player_turns_only_when_free() {
    let mut m = PlayerStateMachine::new((0, 1));
    assert!(m.turns_with_movement(false));
    assert!(!m.turns_with_movement(true));
    m.transition_attack(AttackForm::Heavy);
    assert!(!m.turns_with_movement(false));
}

#[test]
fn moving_during_an_attack_stops_at_the_hitbox_until_the_next_change() {
    let mut m = PlayerStateMachine::new((1, 0));
    assert!(m.set_attack(Attack::Light1));
    assert!(m.can_move_during_attack());
    m.disable_can_move_during_attack();
    assert!(!m.can_move_during_attack());
    // A second change in the same frame is refused and does not lift it.
    m.set_state(DudeState::Recovering);
    assert!(!m.can_move_during_attack());
    assert!(!m.set_attack(Attack::Light2));
    assert!(!m.can_move_during_attack());
    // The next change that takes place does.
    m.set_just_changed(false);
    m.set_state(DudeState::Recovering);
    assert!(m.can_move_during_attack());
}

#[test]
fn crowded_enemies_slow_down_by_rank() {
    assert_eq!(crowd_speed_eighths(None), 8);
    assert_eq!(crowd_speed_eighths(Some(0)), 8);
    assert_eq!(crowd_speed_eighths(Some(1)), 7);
    assert_eq!(crowd_speed_eighths(Some(3)), 5);
    assert_eq!(crowd_speed_eighths(Some(4)), 4);
    assert_eq!(crowd_speed_eighths(Some(100)), 4);
}
