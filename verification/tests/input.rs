use dude_brawl::input::{
    gamepad_gaming_input, keyboard_gaming_input, GamingActions, GlobalInput, Key, MenuInput,
    Mouse, PadButton,
};

#[test]
fn keyboard_actions_and_movement() {
    let (a, x, y) = keyboard_gaming_input(
        &vec![Key::E, Key::Space, Key::Minus],
        &vec![Key::W, Key::D, Key::A],
        &vec![Mouse::Left],
        &vec![true, true, false],
    );
    assert!(a.light_attack);
    assert!(!a.heavy_attack);
    assert!(a.parry);
    assert!(!a.dash);
    assert!(!a.special_light);
    assert!(a.special_heavy);
    // minus zooms out (+1), two scrolls up (-2) and one down (+1)
    assert_eq!(a.scroll, 0);
    // right and left cancel out, up stays
    assert_eq!((x, y), (0, 1));

    let (a, x, y) = keyboard_gaming_input(&vec![Key::Backspace, Key::Z], &vec![Key::J], &vec![], &vec![]);
    assert_eq!(a.scroll, -1);
    assert!(a.dash);
    assert_eq!((x, y), (0, -1));
    assert!(a.is_some());
    let (none, _, _) = keyboard_gaming_input(&vec![], &vec![], &vec![], &vec![]);
    assert!(!none.is_some());
}

#[test]
fn gamepad_actions() {
    let a = gamepad_gaming_input(&vec![PadButton::North, PadButton::DPadRight, PadButton::LeftTrigger2]);
    assert!(a.heavy_attack);
    assert!(a.dash);
    assert!(!a.light_attack);
    assert_eq!(a.scroll, 1);
    let b = gamepad_gaming_input(&vec![PadButton::DPadLeft, PadButton::DPadRight]);
    assert_eq!(b.scroll, 0);
}

#[test]
fn inputs_of_two_devices_combine() {
    let mut a = GamingActions::none();
    a.scroll = -1;
    let mut b = GamingActions::none();
    b.scroll = 1;
    b.parry = true;
    a.bitor_assign(b);
    assert_eq!(a.scroll, -1);
    assert!(a.parry);
    let mut c = GamingActions::none();
    c.bitor_assign(b);
    assert_eq!(c.scroll, 1);

    let mut g = GlobalInput::from_keyboard(&vec![Key::B]);
    g.bitor_assign(GlobalInput::from_gamepad(&vec![PadButton::DPadUp]));
    assert!(g.toggle_fullscreen && g.toggle_debug && !g.toggle_grid_debug_visuals);
    assert_eq!(GlobalInput::none(), GlobalInput::from_keyboard(&vec![Key::A]));

    let mut m = MenuInput::from_keyboard(&vec![]);
    assert!(!m.restart);
    m.bitor_assign(MenuInput::from_gamepad(&vec![PadButton::South]));
    assert!(m.restart && !m.confirm);
    assert_eq!(MenuInput::none(), MenuInput::from_keyboard(&vec![Key::Q]));
}
