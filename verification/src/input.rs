//! The player's inputs: which keys and buttons trigger which action, and how
//! the inputs of several devices combine within one frame.
use vstd::prelude::*;

verus! {

/// The keyboard keys that the game reads.
#[derive(Clone, Copy, Debug, PartialEq, Eq, Structural)]
pub enum Key {
    A,
    B,
    D,
    E,
    F,
    G,
    J,
    K,
    L,
    N,
    P,
    Q,
    R,
    S,
    W,
    Z,
    F3,
    ShiftLeft,
    Space,
    Backspace,
    Minus,
}

/// The mouse buttons that the game reads.
#[derive(Clone, Copy, Debug, PartialEq, Eq, Structural)]
pub enum Mouse {
    Left,
    Right,
}

/// The gamepad buttons that the game reads.
#[derive(Clone, Copy, Debug, PartialEq, Eq, Structural)]
pub enum PadButton {
    North,
    East,
    South,
    West,
    LeftTrigger,
    LeftTrigger2,
    DPadUp,
    DPadDown,
    DPadLeft,
    DPadRight,
}

/// Inputs that act whatever the game is doing.
#[derive(Clone, Copy, Debug, PartialEq, Eq, Structural)]
pub struct GlobalInput {
    pub toggle_fullscreen: bool,
    pub toggle_debug: bool,
    pub toggle_grid_debug_visuals: bool,
}

/// Inputs of the menus.
#[derive(Clone, Copy, Debug, PartialEq, Eq, Structural)]
pub struct MenuInput {
    pub confirm: bool,
    pub restart: bool,
}

/// The discrete part of the inputs while playing: the zoom steps and the
/// actions.
#[derive(Clone, Copy, Debug, PartialEq, Eq, Structural)]
pub struct GamingActions {
    pub scroll: i32,
    pub light_attack: bool,
    pub heavy_attack: bool,
    pub parry: bool,
    pub dash: bool,
    pub special_light: bool,
    pub special_heavy: bool,
}

fn holds_key(items: &Vec<Key>, item: Key) -> (r: bool)
    ensures
        r == items@.contains(item),
{
    let mut k: usize = 0;
    while k < items.len()
        invariant
            k <= items.len(),
            forall|j: int| 0 <= j < k ==> items@[j] != item,
        decreases items.len() - k,
    {
        if items[k] == item {
            assert(items@[k as int] == item);
            return true;
        }
        k = k + 1;
    }
    false
}

fn holds_mouse(items: &Vec<Mouse>, item: Mouse) -> (r: bool)
    ensures
        r == items@.contains(item),
{
    let mut k: usize = 0;
    while k < items.len()
        invariant
            k <= items.len(),
            forall|j: int| 0 <= j < k ==> items@[j] != item,
        decreases items.len() - k,
    {
        if items[k] == item {
            assert(items@[k as int] == item);
            return true;
        }
        k = k + 1;
    }
    false
}

fn holds_pad(items: &Vec<PadButton>, item: PadButton) -> (r: bool)
    ensures
        r == items@.contains(item),
{
    let mut k: usize = 0;
    while k < items.len()
        invariant
            k <= items.len(),
            forall|j: int| 0 <= j < k ==> items@[j] != item,
        decreases items.len() - k,
    {
        if items[k] == item {
            assert(items@[k as int] == item);
            return true;
        }
        k = k + 1;
    }
    false
}

impl GlobalInput {
    /// No input.
    pub fn none() -> (g: GlobalInput)
        ensures
            !g.toggle_fullscreen && !g.toggle_debug && !g.toggle_grid_debug_visuals,
    {
        GlobalInput { toggle_fullscreen: false, toggle_debug: false, toggle_grid_debug_visuals: false }
    }

    /// Combine with the input of another device: an input is on when it is
    /// on for either.
    pub fn bitor_assign(&mut self, rhs: GlobalInput)
        ensures
            final(self).toggle_fullscreen == (old(self).toggle_fullscreen || rhs.toggle_fullscreen),
            final(self).toggle_debug == (old(self).toggle_debug || rhs.toggle_debug),
            final(self).toggle_grid_debug_visuals == (old(self).toggle_grid_debug_visuals
                || rhs.toggle_grid_debug_visuals),
    {
        self.toggle_fullscreen = self.toggle_fullscreen || rhs.toggle_fullscreen;
        self.toggle_debug = self.toggle_debug || rhs.toggle_debug;
        self.toggle_grid_debug_visuals = self.toggle_grid_debug_visuals
            || rhs.toggle_grid_debug_visuals;
    }

    /// The global input from the keys pressed this frame: B toggles
    /// fullscreen, F3 the debug view, G the grid debug visuals.
    pub fn from_keyboard(just_pressed: &Vec<Key>) -> (g: GlobalInput)
        ensures
            g.toggle_fullscreen == just_pressed@.contains(Key::B),
            g.toggle_debug == just_pressed@.contains(Key::F3),
            g.toggle_grid_debug_visuals == just_pressed@.contains(Key::G),
    {
        GlobalInput {
            toggle_fullscreen: holds_key(just_pressed, Key::B),
            toggle_debug: holds_key(just_pressed, Key::F3),
            toggle_grid_debug_visuals: holds_key(just_pressed, Key::G),
        }
    }

    /// The global input from the gamepad buttons pressed this frame: down
    /// on the pad toggles fullscreen, up the debug view, left the grid
    /// debug visuals.
    pub fn from_gamepad(just_pressed: &Vec<PadButton>) -> (g: GlobalInput)
        ensures
            g.toggle_fullscreen == just_pressed@.contains(PadButton::DPadDown),
            g.toggle_debug == just_pressed@.contains(PadButton::DPadUp),
            g.toggle_grid_debug_visuals == just_pressed@.contains(PadButton::DPadLeft),
    {
        GlobalInput {
            toggle_fullscreen: holds_pad(just_pressed, PadButton::DPadDown),
            toggle_debug: holds_pad(just_pressed, PadButton::DPadUp),
            toggle_grid_debug_visuals: holds_pad(just_pressed, PadButton::DPadLeft),
        }
    }
}

impl MenuInput {
    /// No input.
    pub fn none() -> (m: MenuInput)
        ensures
            !m.confirm && !m.restart,
    {
        MenuInput { confirm: false, restart: false }
    }

    /// Combine with the input of another device.
    pub fn bitor_assign(&mut self, rhs: MenuInput)
        ensures
            final(self).confirm == (old(self).confirm || rhs.confirm),
            final(self).restart == (old(self).restart || rhs.restart),
    {
        self.confirm = self.confirm || rhs.confirm;
        self.restart = self.restart || rhs.restart;
    }

    /// The menu input from the keys pressed this frame: R restarts.
    pub fn from_keyboard(just_pressed: &Vec<Key>) -> (m: MenuInput)
        ensures
            !m.confirm,
            m.restart == just_pressed@.contains(Key::R),
    {
        MenuInput { confirm: false, restart: holds_key(just_pressed, Key::R) }
    }

    /// The menu input from the gamepad buttons pressed this frame: the
    /// south button restarts.
    pub fn from_gamepad(just_pressed: &Vec<PadButton>) -> (m: MenuInput)
        ensures
            !m.confirm,
            m.restart == just_pressed@.contains(PadButton::South),
    {
        MenuInput { confirm: false, restart: holds_pad(just_pressed, PadButton::South) }
    }
}

/// One step for each key in `keys` that is held.
pub open spec fn held(keys: Seq<Key>, a: Key, b: Key) -> int {
    if keys.contains(a) || keys.contains(b) {
        1
    } else {
        0
    }
}

/// The zoom steps of the scroll events: one step in for each scroll up
/// (`true`), one step out for each other.
pub open spec fn scroll_steps(ups: Seq<bool>) -> int
    decreases ups.len(),
{
    if ups.len() == 0 {
        0
    } else {
        scroll_steps(ups.drop_last()) + if ups.last() {
            -1int
        } else {
            1int
        }
    }
}

impl GamingActions {
    /// No input.
    pub fn none() -> (a: GamingActions)
        ensures
            a.scroll == 0,
            !a.light_attack && !a.heavy_attack && !a.parry && !a.dash && !a.special_light
                && !a.special_heavy,
    {
        GamingActions {
            scroll: 0,
            light_attack: false,
            heavy_attack: false,
            parry: false,
            dash: false,
            special_light: false,
            special_heavy: false,
        }
    }

    /// Combine with the input of another device: the zoom of the first
    /// device that zooms, and every action that either triggers.
    pub fn bitor_assign(&mut self, rhs: GamingActions)
        ensures
            final(self).scroll == (if old(self).scroll == 0 {
                rhs.scroll
            } else {
                old(self).scroll
            }),
            final(self).light_attack == (old(self).light_attack || rhs.light_attack),
            final(self).heavy_attack == (old(self).heavy_attack || rhs.heavy_attack),
            final(self).parry == (old(self).parry || rhs.parry),
            final(self).dash == (old(self).dash || rhs.dash),
            final(self).special_light == (old(self).special_light || rhs.special_light),
            final(self).special_heavy == (old(self).special_heavy || rhs.special_heavy),
    {
        if self.scroll == 0 {
            self.scroll = rhs.scroll;
        }
        self.light_attack = self.light_attack || rhs.light_attack;
        self.heavy_attack = self.heavy_attack || rhs.heavy_attack;
        self.parry = self.parry || rhs.parry;
        self.dash = self.dash || rhs.dash;
        self.special_light = self.special_light || rhs.special_light;
        self.special_heavy = self.special_heavy || rhs.special_heavy;
    }

    /// Whether any input is given.
    pub fn is_some(&self) -> (b: bool)
        ensures
            b == (self.scroll != 0 || self.light_attack || self.heavy_attack || self.parry
                || self.dash || self.special_light || self.special_heavy),
    {
        self.scroll != 0 || self.light_attack || self.heavy_attack || self.parry || self.dash
            || self.special_light || self.special_heavy
    }
}

/// The playing input from the keyboard and mouse this frame: the actions,
/// and the move direction as a step on each axis (not yet normalised).
/// L or the left mouse button attack lightly, N or the right button
/// heavily; P or E parry; left shift or Z dash; Q and space are the special
/// attacks. J or S move down, K or W up, F or D right and A left.
/// Backspace zooms in and minus out, as do scrolling up and down.
pub fn keyboard_gaming_input(
    just_pressed: &Vec<Key>,
    pressed: &Vec<Key>,
    mouse_just_pressed: &Vec<Mouse>,
    scroll_ups: &Vec<bool>,
) -> (r: (GamingActions, i32, i32))
    requires
        scroll_ups.len() < 0x4000_0000,
    ensures
        r.0.light_attack == (just_pressed@.contains(Key::L) || mouse_just_pressed@.contains(
            Mouse::Left,
        )),
        r.0.heavy_attack == (just_pressed@.contains(Key::N) || mouse_just_pressed@.contains(
            Mouse::Right,
        )),
        r.0.parry == (just_pressed@.contains(Key::P) || just_pressed@.contains(Key::E)),
        r.0.dash == (just_pressed@.contains(Key::ShiftLeft) || just_pressed@.contains(Key::Z)),
        r.0.special_light == just_pressed@.contains(Key::Q),
        r.0.special_heavy == just_pressed@.contains(Key::Space),
        r.0.scroll == held(just_pressed@, Key::Minus, Key::Minus) - held(
            just_pressed@,
            Key::Backspace,
            Key::Backspace,
        ) + scroll_steps(scroll_ups@),
        r.1 == held(pressed@, Key::F, Key::D) - held(pressed@, Key::A, Key::A),
        r.2 == held(pressed@, Key::K, Key::W) - held(pressed@, Key::J, Key::S),
{
    let mut zoom: i32 = 0;
    if holds_key(just_pressed, Key::Backspace) {
        zoom = zoom - 1;
    }
    if holds_key(just_pressed, Key::Minus) {
        zoom = zoom + 1;
    }
    let mut k: usize = 0;
    while k < scroll_ups.len()
        invariant
            k <= scroll_ups.len(),
            scroll_ups.len() < 0x4000_0000,
            zoom == held(just_pressed@, Key::Minus, Key::Minus) - held(
                just_pressed@,
                Key::Backspace,
                Key::Backspace,
            ) + scroll_steps(scroll_ups@.take(k as int)),
            -2 - k <= zoom <= 2 + k,
        decreases scroll_ups.len() - k,
    {
        assert(scroll_ups@.take(k + 1).drop_last() =~= scroll_ups@.take(k as int));
        if scroll_ups[k] {
            zoom = zoom - 1;
        } else {
            zoom = zoom + 1;
        }
        k = k + 1;
    }
    assert(scroll_ups@.take(k as int) =~= scroll_ups@);
    let mut move_x: i32 = 0;
    let mut move_y: i32 = 0;
    if holds_key(pressed, Key::J) || holds_key(pressed, Key::S) {
        move_y = move_y - 1;
    }
    if holds_key(pressed, Key::K) || holds_key(pressed, Key::W) {
        move_y = move_y + 1;
    }
    if holds_key(pressed, Key::F) || holds_key(pressed, Key::D) {
        move_x = move_x + 1;
    }
    if holds_key(pressed, Key::A) {
        move_x = move_x - 1;
    }
    let actions = GamingActions {
        scroll: zoom,
        light_attack: holds_key(just_pressed, Key::L) || holds_mouse(mouse_just_pressed, Mouse::Left),
        heavy_attack: holds_key(just_pressed, Key::N) || holds_mouse(mouse_just_pressed, Mouse::Right),
        parry: holds_key(just_pressed, Key::P) || holds_key(just_pressed, Key::E),
        dash: holds_key(just_pressed, Key::ShiftLeft) || holds_key(just_pressed, Key::Z),
        special_light: holds_key(just_pressed, Key::Q),
        special_heavy: holds_key(just_pressed, Key::Space),
    };
    (actions, move_x, move_y)
}

/// The playing actions from the gamepad buttons pressed this frame: west
/// attacks lightly, north heavily, the left trigger parries, the second
/// left trigger dashes, east and south are the special attacks, and left
/// and right on the pad zoom in and out.
pub fn gamepad_gaming_input(just_pressed: &Vec<PadButton>) -> (a: GamingActions)
    ensures
        a.light_attack == just_pressed@.contains(PadButton::West),
        a.heavy_attack == just_pressed@.contains(PadButton::North),
        a.parry == just_pressed@.contains(PadButton::LeftTrigger),
        a.dash == just_pressed@.contains(PadButton::LeftTrigger2),
        a.special_light == just_pressed@.contains(PadButton::East),
        a.special_heavy == just_pressed@.contains(PadButton::South),
        a.scroll == (if just_pressed@.contains(PadButton::DPadRight) {
            1int
        } else {
            0
        }) - (if just_pressed@.contains(PadButton::DPadLeft) {
            1int
        } else {
            0
        }),
{
    let mut zoom: i32 = 0;
    if holds_pad(just_pressed, PadButton::DPadLeft) {
        zoom = zoom - 1;
    }
    if holds_pad(just_pressed, PadButton::DPadRight) {
        zoom = zoom + 1;
    }
    GamingActions {
        scroll: zoom,
        light_attack: holds_pad(just_pressed, PadButton::West),
        heavy_attack: holds_pad(just_pressed, PadButton::North),
        parry: holds_pad(just_pressed, PadButton::LeftTrigger),
        dash: holds_pad(just_pressed, PadButton::LeftTrigger2),
        special_light: holds_pad(just_pressed, PadButton::East),
        special_heavy: holds_pad(just_pressed, PadButton::South),
    }
}

} // verus!
