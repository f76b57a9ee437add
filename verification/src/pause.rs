//! The pause menu's navigation: the scenes it stacks (Top, Settings,
//! Input, the input tester, key and gamepad configuration, the clear-save
//! dialog), how one frame's menu inputs move between them, and the
//! actions the session applies (resume, volume steps, fullscreen, reset,
//! clear save, new key and gamepad bindings, menu items, quit). The key
//! and gamepad configuration scenes capture one binding per action,
//! Pico-8 style; keys and buttons are raylib's codes. Drawing, and reading
//! the keys and buttons of a frame, are the engine's.

use vstd::prelude::*;
use crate::menu::{TopRow, resolve_row, resolve_row_spec, top_count, STATIC_TOP_COUNT};
use vstd::array::{spec_array_fill_for_copy_type, spec_array_update};
use vstd::view::View as _;

verus! {

/// The input actions a keymap binds: LEFT, RIGHT, UP, DOWN, BTN1, BTN2
/// and BTN3.
pub const ACTION_COUNT: usize = 7;
/// The gamepad actions a pad map binds: BTN1, BTN2 and BTN3 (the
/// directions stay on the d-pad and the left stick).
pub const PAD_OVERRIDE_COUNT: usize = 3;

/// Keyboard overrides, one slot per action in `ACTION_COUNT` order: a
/// raylib key code, or `None` for the built-in binding.
#[derive(Copy, Clone, Debug, PartialEq, Eq)]
pub struct Keymap {
    pub overrides: [Option<i32>; 7],
}

/// Gamepad overrides for BTN1, BTN2 and BTN3: a raylib button code, or
/// `None` for the built-in binding.
#[derive(Copy, Clone, Debug, PartialEq, Eq)]
pub struct PadMap {
    pub overrides: [Option<i32>; 3],
}

impl Keymap {
    /// The keymap without overrides.
    pub open spec fn none() -> Keymap {
        Keymap { overrides: spec_array_fill_for_copy_type(None) }
    }
}

impl PadMap {
    /// The pad map without overrides.
    pub open spec fn none() -> PadMap {
        PadMap { overrides: spec_array_fill_for_copy_type(None) }
    }
}

impl Default for Keymap {
    fn default() -> (r: Keymap)
        ensures
            r == Keymap::none(),
    {
        Keymap { overrides: [None; 7] }
    }
}

impl Default for PadMap {
    fn default() -> (r: PadMap)
        ensures
            r == PadMap::none(),
    {
        PadMap { overrides: [None; 3] }
    }
}

/// raylib's key codes for the keys a capture never binds.
pub const KEY_ESCAPE: i32 = 256;
pub const KEY_ENTER: i32 = 257;
pub const KEY_BACKSPACE: i32 = 259;
pub const KEY_DELETE: i32 = 261;
pub const KEY_F1: i32 = 290;
pub const KEY_F12: i32 = 301;
pub const KEY_LEFT_SHIFT: i32 = 340;
pub const KEY_RIGHT_SUPER: i32 = 347;

/// The keys a capture refuses to bind: the menu's own keys (Esc, Enter),
/// the reset and undo gestures (Delete, Backspace), F1 to F12, and the
/// Shift, Control, Alt and Super keys on either side (raylib numbers
/// these eight from Left Shift to Right Super).
pub open spec fn reserved_key(k: i32) -> bool {
    ||| k == KEY_ESCAPE
    ||| k == KEY_ENTER
    ||| k == KEY_DELETE
    ||| k == KEY_BACKSPACE
    ||| KEY_F1 <= k <= KEY_F12
    ||| KEY_LEFT_SHIFT <= k <= KEY_RIGHT_SUPER
}

/// Whether a capture refuses to bind the key `k`.
pub fn is_reserved_key(k: i32) -> (r: bool)
    ensures
        r == reserved_key(k),
{
    k == KEY_ESCAPE || k == KEY_ENTER || k == KEY_DELETE || k == KEY_BACKSPACE
        || (KEY_F1 <= k && k <= KEY_F12) || (KEY_LEFT_SHIFT <= k && k <= KEY_RIGHT_SUPER)
}

/// A key capture under way: the bindings staged so far (seeded from the
/// current keymap) and the action awaiting a key.
#[derive(Copy, Clone, Debug, PartialEq, Eq)]
pub struct KeyConfigState {
    pub staging: Keymap,
    pub action_index: usize,
}

/// A gamepad capture under way: the bindings staged so far (seeded from
/// the current pad map) and the action awaiting a button.
#[derive(Copy, Clone, Debug, PartialEq, Eq)]
pub struct PadConfigState {
    pub staging: PadMap,
    pub action_index: usize,
}

/// What the key configuration scene read this frame: the first bindable
/// key pressed (reserved keys already left out), Delete and Backspace.
#[derive(Copy, Clone, Debug, Default, PartialEq, Eq, Structural)]
pub struct KeyConfigInputs {
    pub captured_key: Option<i32>,
    pub delete: bool,
    pub backspace: bool,
}

/// What the gamepad configuration scene read this frame: the first
/// bindable button pressed, Delete, and Backspace or gamepad Select.
#[derive(Copy, Clone, Debug, Default, PartialEq, Eq, Structural)]
pub struct PadConfigInputs {
    pub captured_button: Option<i32>,
    pub delete: bool,
    pub backspace: bool,
}

/// The capture inputs of one frame.
#[derive(Copy, Clone, Debug, Default, PartialEq, Eq, Structural)]
pub struct CaptureInputs {
    pub kc: KeyConfigInputs,
    pub pc: PadConfigInputs,
}

/// The menu inputs of one frame, already read from keys and gamepad.
#[derive(Copy, Clone, Debug, Default, PartialEq, Eq, Structural)]
pub struct MenuInputs {
    /// Esc, P or gamepad Start: open the menu, or climb one level.
    pub toggle: bool,
    /// Gamepad Start on its own (it also counts as `toggle`).
    pub start_press: bool,
    pub up: bool,
    pub down: bool,
    pub left: bool,
    pub right: bool,
    /// Confirm.
    pub btn1: bool,
    /// Cancel.
    pub btn2: bool,
}

/// The scene the open menu shows.
#[derive(Copy, Clone, Debug, PartialEq, Eq, Structural)]
pub enum View {
    Top,
    SettingsMenu,
    InputMenu,
    InputTester,
    KeyConfig,
    PadConfig,
    ConfirmClearSave,
}

/// What the menu asks the session to do.
#[derive(Copy, Clone, Debug, PartialEq, Eq)]
pub enum PauseAction {
    Resume,
    /// Step the music volume one notch down (`-1`) or up (`1`).
    StepMusicVolume(i32),
    /// Step the sound-effect volume one notch down (`-1`) or up (`1`).
    StepSfxVolume(i32),
    ToggleFullscreen,
    ResetGame,
    ClearSave,
    /// Store this keymap.
    SetKeymap(Keymap),
    /// Store this pad map.
    SetGamepadMap(PadMap),
    /// Run the registered menu item with this index.
    FireMenuItem(usize),
    Quit,
}

/// The rows of the Settings scene: Music, SFX, Fullscreen, Input.
pub const SETTINGS_COUNT: usize = 4;
/// The rows of the Input scene: Test Input, Configure Keys, Configure Gamepad.
pub const INPUT_MENU_COUNT: usize = 3;

/// The menu's navigation state.
#[derive(Copy, Clone, Debug, PartialEq, Eq)]
pub struct PauseMenu {
    pub open: bool,
    /// Whether it was open before the last update.
    pub last_open: bool,
    pub view: View,
    pub top_selected: usize,
    pub settings_menu_selected: usize,
    pub input_menu_selected: usize,
    pub confirm_selected: usize,
    /// The key capture while in the key configuration scene.
    pub key_config: Option<KeyConfigState>,
    /// The gamepad capture while in the gamepad configuration scene.
    pub pad_config: Option<PadConfigState>,
}

/// No capture runs past its last action: the indices that Backspace
/// steps back from stay within the staged slots.
pub open spec fn captures_in_range(m: PauseMenu) -> bool {
    &&& (m.key_config matches Some(st) ==> st.action_index <= ACTION_COUNT)
    &&& (m.pad_config matches Some(st) ==> st.action_index <= PAD_OVERRIDE_COUNT)
}

/// Some slot other than `idx` already holds `code`.
pub open spec fn taken_elsewhere(slots: Seq<Option<i32>>, idx: int, code: i32) -> bool {
    exists|j: int| 0 <= j < slots.len() && j != idx && slots[j] == Some(code)
}

/// The selection after `up`: the previous row, wrapping to the last.
pub open spec fn sel_up(sel: usize, total: int) -> usize {
    if sel == 0 { (total - 1) as usize } else { (sel - 1) as usize }
}

/// The selection after `down`: the next row, wrapping to the first.
pub open spec fn sel_down(sel: usize, total: int) -> usize {
    ((sel + 1) % total) as usize
}

/// Up, then down, as one frame applies them.
pub open spec fn sel_move(sel: usize, total: int, up: bool, down: bool) -> usize {
    let s = if up { sel_up(sel, total) } else { sel };
    if down { sel_down(s, total) } else { s }
}

/// The Top scene's response.
pub open spec fn top_step(m: PauseMenu, i: MenuInputs, n: int) -> (PauseMenu, Option<PauseAction>) {
    let total = STATIC_TOP_COUNT + n;
    if i.btn2 {
        (PauseMenu { open: false, ..m }, Some(PauseAction::Resume))
    } else {
        let m1 = PauseMenu { top_selected: sel_move(m.top_selected, total, i.up, i.down), ..m };
        if !i.btn1 {
            (m1, None)
        } else {
            match resolve_row_spec(m1.top_selected as int, n) {
                None => (m1, None),
                Some(TopRow::Continue) => (PauseMenu { open: false, ..m1 }, Some(PauseAction::Resume)),
                Some(TopRow::MenuItem(k)) => (m1, Some(PauseAction::FireMenuItem(k))),
                Some(TopRow::Settings) => (PauseMenu { view: View::SettingsMenu, settings_menu_selected: 0, ..m1 }, None),
                Some(TopRow::Clear) => (PauseMenu { view: View::ConfirmClearSave, confirm_selected: 0, ..m1 }, None),
                Some(TopRow::Reset) => (PauseMenu { open: false, ..m1 }, Some(PauseAction::ResetGame)),
                Some(TopRow::Quit) => (m1, Some(PauseAction::Quit)),
            }
        }
    }
}

/// The Settings scene's response.
pub open spec fn settings_step(m: PauseMenu, i: MenuInputs) -> (PauseMenu, Option<PauseAction>) {
    if i.btn2 {
        (PauseMenu { view: View::Top, ..m }, None)
    } else {
        let m1 = PauseMenu {
            settings_menu_selected: sel_move(m.settings_menu_selected, SETTINGS_COUNT as int, i.up, i.down),
            ..m
        };
        let dir: i32 = if i.right { 1i32 } else { -1i32 };
        if (i.left || i.right) && m1.settings_menu_selected == 0 {
            (m1, Some(PauseAction::StepMusicVolume(dir)))
        } else if (i.left || i.right) && m1.settings_menu_selected == 1 {
            (m1, Some(PauseAction::StepSfxVolume(dir)))
        } else if (i.left || i.right || i.btn1) && m1.settings_menu_selected == 2 {
            (m1, Some(PauseAction::ToggleFullscreen))
        } else if i.btn1 && m1.settings_menu_selected == 3 {
            (PauseMenu { view: View::InputMenu, input_menu_selected: 0, ..m1 }, None)
        } else {
            (m1, None)
        }
    }
}

/// The Input scene's response; a capture starts from the current
/// keymap `k` or pad map `p`.
pub open spec fn input_menu_step(m: PauseMenu, i: MenuInputs, k: Keymap, p: PadMap) -> (PauseMenu, Option<PauseAction>) {
    if i.btn2 {
        (PauseMenu { view: View::SettingsMenu, ..m }, None)
    } else {
        let m1 = PauseMenu {
            input_menu_selected: sel_move(m.input_menu_selected, INPUT_MENU_COUNT as int, i.up, i.down),
            ..m
        };
        if i.btn1 && m1.input_menu_selected == 0 {
            (PauseMenu { view: View::InputTester, ..m1 }, None)
        } else if i.btn1 && m1.input_menu_selected == 1 {
            (PauseMenu { view: View::KeyConfig, key_config: Some(KeyConfigState { staging: k, action_index: 0 }), ..m1 }, None)
        } else if i.btn1 && m1.input_menu_selected == 2 {
            (PauseMenu { view: View::PadConfig, pad_config: Some(PadConfigState { staging: p, action_index: 0 }), ..m1 }, None)
        } else {
            (m1, None)
        }
    }
}

/// The clear-save dialog's response: up or down flips between "No" and
/// "Yes"; confirming "Yes" clears the save.
pub open spec fn confirm_step(m: PauseMenu, i: MenuInputs) -> (PauseMenu, Option<PauseAction>) {
    if i.btn2 {
        (PauseMenu { view: View::Top, ..m }, None)
    } else {
        let m1 = if i.up || i.down {
            PauseMenu { confirm_selected: ((m.confirm_selected + 1) % 2) as usize, ..m }
        } else {
            m
        };
        if i.btn1 {
            (PauseMenu { view: View::Top, ..m1 }, if m1.confirm_selected == 1 { Some(PauseAction::ClearSave) } else { None })
        } else {
            (m1, None)
        }
    }
}

/// Toggle climbs one level: Top closes the menu, every other scene goes
/// back to its parent, dropping a capture under way.
pub open spec fn climb_step(m: PauseMenu) -> (PauseMenu, Option<PauseAction>) {
    match m.view {
        View::Top => (PauseMenu { open: false, key_config: None, pad_config: None, ..m }, Some(PauseAction::Resume)),
        View::SettingsMenu => (PauseMenu { view: View::Top, ..m }, None),
        View::InputMenu => (PauseMenu { view: View::SettingsMenu, ..m }, None),
        View::InputTester => (PauseMenu { view: View::InputMenu, ..m }, None),
        View::KeyConfig => (PauseMenu { view: View::InputMenu, key_config: None, ..m }, None),
        View::PadConfig => (PauseMenu { view: View::InputMenu, pad_config: None, ..m }, None),
        View::ConfirmClearSave => (PauseMenu { view: View::Top, ..m }, None),
    }
}

/// The key configuration scene's response. Delete resets every
/// override and leaves for the input tester; Backspace steps back one
/// action and clears its slot; a captured key fills the current slot and
/// moves on, unless another slot holds it already; filling the last slot
/// hands the staged keymap over and leaves for the input tester.
pub open spec fn key_config_step(m: PauseMenu, kc: KeyConfigInputs) -> (PauseMenu, Option<PauseAction>) {
    if kc.delete {
        (PauseMenu { view: View::InputTester, key_config: None, ..m }, Some(PauseAction::SetKeymap(Keymap::none())))
    } else if kc.backspace {
        match m.key_config {
            Some(st) => if st.action_index > 0 {
                let i = (st.action_index - 1) as usize;
                let staged = Keymap { overrides: spec_array_update(st.staging.overrides, i as int, None) };
                (PauseMenu { key_config: Some(KeyConfigState { staging: staged, action_index: i }), ..m }, None)
            } else {
                (m, None)
            },
            None => (m, None),
        }
    } else {
        match (kc.captured_key, m.key_config) {
            (Some(key), Some(st)) => {
                let i = st.action_index;
                if i >= ACTION_COUNT || taken_elsewhere(st.staging.overrides@, i as int, key) {
                    (m, None)
                } else {
                    let staged = Keymap { overrides: spec_array_update(st.staging.overrides, i as int, Some(key)) };
                    if i + 1 >= ACTION_COUNT {
                        (PauseMenu { view: View::InputTester, key_config: None, ..m }, Some(PauseAction::SetKeymap(staged)))
                    } else {
                        (PauseMenu { key_config: Some(KeyConfigState { staging: staged, action_index: (i + 1) as usize }), ..m }, None)
                    }
                }
            },
            _ => (m, None),
        }
    }
}

/// The gamepad configuration scene's response, as [`key_config_step`]
/// with buttons and the three pad actions.
pub open spec fn pad_config_step(m: PauseMenu, pc: PadConfigInputs) -> (PauseMenu, Option<PauseAction>) {
    if pc.delete {
        (PauseMenu { view: View::InputTester, pad_config: None, ..m }, Some(PauseAction::SetGamepadMap(PadMap::none())))
    } else if pc.backspace {
        match m.pad_config {
            Some(st) => if st.action_index > 0 {
                let i = (st.action_index - 1) as usize;
                let staged = PadMap { overrides: spec_array_update(st.staging.overrides, i as int, None) };
                (PauseMenu { pad_config: Some(PadConfigState { staging: staged, action_index: i }), ..m }, None)
            } else {
                (m, None)
            },
            None => (m, None),
        }
    } else {
        match (pc.captured_button, m.pad_config) {
            (Some(button), Some(st)) => {
                let i = st.action_index;
                if i >= PAD_OVERRIDE_COUNT || taken_elsewhere(st.staging.overrides@, i as int, button) {
                    (m, None)
                } else {
                    let staged = PadMap { overrides: spec_array_update(st.staging.overrides, i as int, Some(button)) };
                    if i + 1 >= PAD_OVERRIDE_COUNT {
                        (PauseMenu { view: View::InputTester, pad_config: None, ..m }, Some(PauseAction::SetGamepadMap(staged)))
                    } else {
                        (PauseMenu { pad_config: Some(PadConfigState { staging: staged, action_index: (i + 1) as usize }), ..m }, None)
                    }
                }
            },
            _ => (m, None),
        }
    }
}

/// One frame of the menu with `n` registered menu items, the current
/// keymap `k` and pad map `p`, and the frame's capture inputs `cap`.
pub open spec fn pause_step(m0: PauseMenu, i: MenuInputs, n: int, k: Keymap, p: PadMap, cap: CaptureInputs) -> (PauseMenu, Option<PauseAction>) {
    let m = PauseMenu { last_open: m0.open, ..m0 };
    if !m.open {
        if i.toggle {
            (PauseMenu { open: true, view: View::Top, top_selected: 0, key_config: None, pad_config: None, ..m }, None)
        } else {
            (m, None)
        }
    } else if i.start_press && m.view == View::PadConfig {
        (PauseMenu { view: View::InputTester, pad_config: None, ..m }, Some(PauseAction::SetGamepadMap(PadMap::none())))
    } else if i.toggle {
        climb_step(m)
    } else {
        match m.view {
            View::Top => top_step(m, i, n),
            View::SettingsMenu => settings_step(m, i),
            View::InputMenu => input_menu_step(m, i, k, p),
            View::InputTester => (m, None),
            View::KeyConfig => key_config_step(m, cap.kc),
            View::PadConfig => pad_config_step(m, cap.pc),
            View::ConfirmClearSave => confirm_step(m, i),
        }
    }
}

/// Some slot of `slots` other than `idx` holds `code`.
fn slot_taken<const N: usize>(slots: &[Option<i32>; N], idx: usize, code: i32) -> (r: bool)
    ensures
        r == taken_elsewhere(slots@, idx as int, code),
{
    let mut j: usize = 0;
    while j < N
        invariant
            j <= N,
            slots@.len() == N,
            forall|t: int| 0 <= t < j ==> !(t != idx && #[trigger] slots@[t] == Some(code)),
        decreases N - j,
    {
        if j != idx {
            match slots[j] {
                Some(c) => {
                    if c == code {
                        return true;
                    }
                },
                None => {},
            }
        }
        j = j + 1;
    }
    false
}

fn move_sel(sel: usize, total: usize, up: bool, down: bool) -> (r: usize)
    requires
        total > 0,
    ensures
        r == sel_move(sel, total as int, up, down),
{
    let mut s = sel;
    if up {
        s = if s == 0 { total - 1 } else { s - 1 };
    }
    if down {
        let a = s % total;
        proof {
            let q = s as int / total as int;
            vstd::arithmetic::div_mod::lemma_fundamental_div_mod(s as int, total as int);
            if a + 1 == total {
                assert((s + 1) % (total as int) == 0) by (nonlinear_arith)
                    requires
                        s == total * q + a,
                        a + 1 == total,
                        total > 0,
                ;
            } else {
                assert((s + 1) % (total as int) == a + 1) by (nonlinear_arith)
                    requires
                        s == total * q + a,
                        0 <= a,
                        a + 1 < total,
                ;
            }
        }
        s = if a + 1 == total { 0 } else { a + 1 };
    }
    s
}

impl PauseMenu {
    /// A closed menu on the Top scene.
    pub fn new() -> (m: PauseMenu)
        ensures
            !m.open && !m.last_open && m.view == View::Top,
            m.top_selected == 0 && m.settings_menu_selected == 0,
            m.input_menu_selected == 0 && m.confirm_selected == 0,
            m.key_config is None && m.pad_config is None,
    {
        PauseMenu {
            open: false,
            last_open: false,
            view: View::Top,
            top_selected: 0,
            settings_menu_selected: 0,
            input_menu_selected: 0,
            confirm_selected: 0,
            key_config: None,
            pad_config: None,
        }
    }

    /// Applies one frame's menu and capture inputs with `menu_item_count`
    /// registered menu items and the current keymap and pad map, and gives
    /// the action for the session, if any.
    pub fn update_with(
        &mut self,
        inputs: MenuInputs,
        keymap: Keymap,
        pad_map: PadMap,
        menu_item_count: usize,
        cap: CaptureInputs,
    ) -> (r: Option<PauseAction>)
        requires
            menu_item_count + STATIC_TOP_COUNT <= usize::MAX,
            captures_in_range(*old(self)),
        ensures
            (*final(self), r) == pause_step(*old(self), inputs, menu_item_count as int, keymap, pad_map, cap),
            captures_in_range(*final(self)),
    {
        self.last_open = self.open;
        if !self.open {
            if inputs.toggle {
                self.open = true;
                self.view = View::Top;
                self.top_selected = 0;
                self.key_config = None;
                self.pad_config = None;
            }
            return None;
        }
        if inputs.start_press && self.view == View::PadConfig {
            self.view = View::InputTester;
            self.pad_config = None;
            return Some(PauseAction::SetGamepadMap(PadMap::default()));
        }
        if inputs.toggle {
            return match self.view {
                View::Top => {
                    self.open = false;
                    self.key_config = None;
                    self.pad_config = None;
                    Some(PauseAction::Resume)
                },
                View::SettingsMenu => {
                    self.view = View::Top;
                    None
                },
                View::InputMenu => {
                    self.view = View::SettingsMenu;
                    None
                },
                View::InputTester => {
                    self.view = View::InputMenu;
                    None
                },
                View::KeyConfig => {
                    self.view = View::InputMenu;
                    self.key_config = None;
                    None
                },
                View::PadConfig => {
                    self.view = View::InputMenu;
                    self.pad_config = None;
                    None
                },
                View::ConfirmClearSave => {
                    self.view = View::Top;
                    None
                },
            };
        }
        match self.view {
            View::Top => self.handle_top(inputs, menu_item_count),
            View::SettingsMenu => self.handle_settings_menu(inputs),
            View::InputMenu => self.handle_input_menu(inputs, keymap, pad_map),
            View::InputTester => None,
            View::KeyConfig => self.handle_key_config(cap.kc),
            View::PadConfig => self.handle_pad_config(cap.pc),
            View::ConfirmClearSave => self.handle_confirm_clear(inputs),
        }
    }

    /// The Top scene (see [`top_step`]).
    pub fn handle_top(&mut self, inputs: MenuInputs, menu_item_count: usize) -> (r: Option<PauseAction>)
        requires
            menu_item_count + STATIC_TOP_COUNT <= usize::MAX,
        ensures
            (*final(self), r) == top_step(*old(self), inputs, menu_item_count as int),
    {
        let total = top_count(menu_item_count);
        if inputs.btn2 {
            self.open = false;
            return Some(PauseAction::Resume);
        }
        self.top_selected = move_sel(self.top_selected, total, inputs.up, inputs.down);
        if inputs.btn1 {
            return match resolve_row(self.top_selected, menu_item_count) {
                None => None,
                Some(TopRow::Continue) => {
                    self.open = false;
                    Some(PauseAction::Resume)
                },
                Some(TopRow::MenuItem(idx)) => Some(PauseAction::FireMenuItem(idx)),
                Some(TopRow::Settings) => {
                    self.view = View::SettingsMenu;
                    self.settings_menu_selected = 0;
                    None
                },
                Some(TopRow::Clear) => {
                    self.view = View::ConfirmClearSave;
                    self.confirm_selected = 0;
                    None
                },
                Some(TopRow::Reset) => {
                    self.open = false;
                    Some(PauseAction::ResetGame)
                },
                Some(TopRow::Quit) => Some(PauseAction::Quit),
            };
        }
        None
    }

    /// The Settings scene (see [`settings_step`]).
    pub fn handle_settings_menu(&mut self, inputs: MenuInputs) -> (r: Option<PauseAction>)
        ensures
            (*final(self), r) == settings_step(*old(self), inputs),
    {
        if inputs.btn2 {
            self.view = View::Top;
            return None;
        }
        self.settings_menu_selected = move_sel(self.settings_menu_selected, SETTINGS_COUNT, inputs.up, inputs.down);
        let dir: i32 = if inputs.right { 1 } else { -1 };
        if inputs.left || inputs.right {
            if self.settings_menu_selected == 0 {
                return Some(PauseAction::StepMusicVolume(dir));
            }
            if self.settings_menu_selected == 1 {
                return Some(PauseAction::StepSfxVolume(dir));
            }
            if self.settings_menu_selected == 2 {
                return Some(PauseAction::ToggleFullscreen);
            }
        }
        if inputs.btn1 {
            if self.settings_menu_selected == 2 {
                return Some(PauseAction::ToggleFullscreen);
            }
            if self.settings_menu_selected == 3 {
                self.view = View::InputMenu;
                self.input_menu_selected = 0;
            }
        }
        None
    }

    /// The Input scene (see [`input_menu_step`]).
    pub fn handle_input_menu(&mut self, inputs: MenuInputs, keymap: Keymap, pad_map: PadMap) -> (r: Option<PauseAction>)
        ensures
            (*final(self), r) == input_menu_step(*old(self), inputs, keymap, pad_map),
    {
        if inputs.btn2 {
            self.view = View::SettingsMenu;
            return None;
        }
        self.input_menu_selected = move_sel(self.input_menu_selected, INPUT_MENU_COUNT, inputs.up, inputs.down);
        if inputs.btn1 {
            if self.input_menu_selected == 0 {
                self.view = View::InputTester;
            } else if self.input_menu_selected == 1 {
                self.view = View::KeyConfig;
                self.key_config = Some(KeyConfigState { staging: keymap, action_index: 0 });
            } else if self.input_menu_selected == 2 {
                self.view = View::PadConfig;
                self.pad_config = Some(PadConfigState { staging: pad_map, action_index: 0 });
            }
        }
        None
    }

    /// The key configuration scene (see [`key_config_step`]).
    pub fn handle_key_config(&mut self, kc: KeyConfigInputs) -> (r: Option<PauseAction>)
        requires
            captures_in_range(*old(self)),
        ensures
            (*final(self), r) == key_config_step(*old(self), kc),
    {
        if kc.delete {
            self.view = View::InputTester;
            self.key_config = None;
            return Some(PauseAction::SetKeymap(Keymap::default()));
        }
        if kc.backspace {
            if let Some(st) = self.key_config {
                if st.action_index > 0 {
                    let i = st.action_index - 1;
                    let mut staging = st.staging;
                    staging.overrides[i] = None;
                    self.key_config = Some(KeyConfigState { staging, action_index: i });
                }
            }
            return None;
        }
        let key = match kc.captured_key {
            Some(k) => k,
            None => return None,
        };
        let st = match self.key_config {
            Some(st) => st,
            None => return None,
        };
        if st.action_index >= ACTION_COUNT {
            return None;
        }
        if slot_taken(&st.staging.overrides, st.action_index, key) {
            return None;
        }
        let mut staging = st.staging;
        staging.overrides[st.action_index] = Some(key);
        let next = st.action_index + 1;
        if next >= ACTION_COUNT {
            self.view = View::InputTester;
            self.key_config = None;
            return Some(PauseAction::SetKeymap(staging));
        }
        self.key_config = Some(KeyConfigState { staging, action_index: next });
        None
    }

    /// The gamepad configuration scene (see [`pad_config_step`]).
    pub fn handle_pad_config(&mut self, pc: PadConfigInputs) -> (r: Option<PauseAction>)
        requires
            captures_in_range(*old(self)),
        ensures
            (*final(self), r) == pad_config_step(*old(self), pc),
    {
        if pc.delete {
            self.view = View::InputTester;
            self.pad_config = None;
            return Some(PauseAction::SetGamepadMap(PadMap::default()));
        }
        if pc.backspace {
            if let Some(st) = self.pad_config {
                if st.action_index > 0 {
                    let i = st.action_index - 1;
                    let mut staging = st.staging;
                    staging.overrides[i] = None;
                    self.pad_config = Some(PadConfigState { staging, action_index: i });
                }
            }
            return None;
        }
        let button = match pc.captured_button {
            Some(b) => b,
            None => return None,
        };
        let st = match self.pad_config {
            Some(st) => st,
            None => return None,
        };
        if st.action_index >= PAD_OVERRIDE_COUNT {
            return None;
        }
        if slot_taken(&st.staging.overrides, st.action_index, button) {
            return None;
        }
        let mut staging = st.staging;
        staging.overrides[st.action_index] = Some(button);
        let next = st.action_index + 1;
        if next >= PAD_OVERRIDE_COUNT {
            self.view = View::InputTester;
            self.pad_config = None;
            return Some(PauseAction::SetGamepadMap(staging));
        }
        self.pad_config = Some(PadConfigState { staging, action_index: next });
        None
    }

    /// The clear-save dialog (see [`confirm_step`]).
    pub fn handle_confirm_clear(&mut self, inputs: MenuInputs) -> (r: Option<PauseAction>)
        ensures
            (*final(self), r) == confirm_step(*old(self), inputs),
    {
        if inputs.btn2 {
            self.view = View::Top;
            return None;
        }
        if inputs.up || inputs.down {
            self.confirm_selected = if self.confirm_selected % 2 == 0 { 1 } else { 0 };
        }
        if inputs.btn1 {
            let confirmed = self.confirm_selected == 1;
            self.view = View::Top;
            if confirmed {
                return Some(PauseAction::ClearSave);
            }
        }
        None
    }

    /// The menu opened on the last update.
    pub fn just_opened(&self) -> (r: bool)
        ensures
            r == (self.open && !self.last_open),
    {
        self.open && !self.last_open
    }

    /// The menu closed on the last update.
    pub fn just_closed(&self) -> (r: bool)
        ensures
            r == (!self.open && self.last_open),
    {
        !self.open && self.last_open
    }
}

/// The scene selections stay on a row: one frame keeps the Settings,
/// Input and dialog selections within their scenes' rows, and no capture
/// runs past its last action.
pub proof fn lemma_selections_stay_in_range(m: PauseMenu, i: MenuInputs, n: int, k: Keymap, p: PadMap, cap: CaptureInputs)
    requires
        n >= 0,
        m.settings_menu_selected < SETTINGS_COUNT,
        m.input_menu_selected < INPUT_MENU_COUNT,
        m.confirm_selected < 2,
        captures_in_range(m),
    ensures
        pause_step(m, i, n, k, p, cap).0.settings_menu_selected < SETTINGS_COUNT,
        pause_step(m, i, n, k, p, cap).0.input_menu_selected < INPUT_MENU_COUNT,
        pause_step(m, i, n, k, p, cap).0.confirm_selected < 2,
        captures_in_range(pause_step(m, i, n, k, p, cap).0),
{
    let s = m.settings_menu_selected;
    let s1 = if i.up { sel_up(s, 4) } else { s };
    assert(((s1 + 1) % 4) < 4);
    let q = m.input_menu_selected;
    let q1 = if i.up { sel_up(q, 3) } else { q };
    assert(((q1 + 1) % 3) < 3);
    assert(((m.confirm_selected + 1) % 2) < 2);
}

/// The menu as toggle opens it from the closed menu `m`: open, on the
/// Top scene's first row, with no capture under way.
pub open spec fn opened(m: PauseMenu) -> PauseMenu {
    PauseMenu { open: true, last_open: false, view: View::Top, top_selected: 0, key_config: None, pad_config: None, ..m }
}

/// A closed menu reacts to nothing but toggle: it gives no action, it
/// opens exactly when toggle is pressed, on the Top scene's first row with
/// no capture under way, and without toggle it stays as it was. Every
/// `Resume` leaves the menu closed, and the frame's open and closed edges
/// are what `just_opened` and `just_closed` report.
pub proof fn lemma_open_close(m: PauseMenu, i: MenuInputs, n: int, k: Keymap, p: PadMap, cap: CaptureInputs)
    ensures
        !m.open ==> pause_step(m, i, n, k, p, cap).1 is None,
        !m.open ==> (pause_step(m, i, n, k, p, cap).0.open == i.toggle),
        !m.open && i.toggle ==> pause_step(m, i, n, k, p, cap).0 == opened(m),
        !m.open && !i.toggle ==> pause_step(m, i, n, k, p, cap).0 == (PauseMenu { last_open: false, ..m }),
        pause_step(m, i, n, k, p, cap).1 == Some(PauseAction::Resume) ==> !pause_step(m, i, n, k, p, cap).0.open,
        pause_step(m, i, n, k, p, cap).0.last_open == m.open,
{
}

/// No key or button is bound to two slots.
pub open spec fn distinct_bindings(s: Seq<Option<i32>>) -> bool {
    forall|a: int, b: int| 0 <= a < b < s.len() && #[trigger] s[a] is Some ==> s[a] != #[trigger] s[b]
}

/// The keymap an action hands over, if it is one, binds no key twice.
pub open spec fn keymap_distinct(r: Option<PauseAction>) -> bool {
    match r {
        Some(PauseAction::SetKeymap(km)) => distinct_bindings(km.overrides@),
        _ => true,
    }
}

/// The pad map an action hands over, if it is one, binds no button twice.
pub open spec fn pad_map_distinct(r: Option<PauseAction>) -> bool {
    match r {
        Some(PauseAction::SetGamepadMap(pm)) => distinct_bindings(pm.overrides@),
        _ => true,
    }
}

/// Bindings stay exclusive: a key capture that started from a keymap
/// binding no key twice keeps it so, and what it hands over binds no key
/// twice either.
pub proof fn lemma_key_capture_exclusive(m: PauseMenu, kc: KeyConfigInputs)
    requires
        captures_in_range(m),
        (m.key_config matches Some(st) ==> distinct_bindings(st.staging.overrides@)),
    ensures
        keymap_distinct(key_config_step(m, kc).1),
        (key_config_step(m, kc).0.key_config matches Some(st) ==> distinct_bindings(st.staging.overrides@)),
{
    if kc.delete {
        assert(Keymap::none().overrides@ =~= Seq::new(7, |j: int| None::<i32>));
    } else if let Some(st) = m.key_config {
        let s = st.staging.overrides@;
        let i = st.action_index as int;
        if kc.backspace {
            if st.action_index > 0 {
                let s2 = s.update(i - 1, None);
                assert forall|a: int, b: int| 0 <= a < b < s2.len() && #[trigger] s2[a] is Some implies s2[a] != #[trigger] s2[b] by {
                    assert(a != i - 1);
                    if b != i - 1 {
                        assert(s[a] is Some && s[a] != s[b]);
                    }
                }
            }
        } else if let Some(key) = kc.captured_key {
            if i < ACTION_COUNT && !taken_elsewhere(s, i, key) {
                let s2 = s.update(i, Some(key));
                assert forall|a: int, b: int| 0 <= a < b < s2.len() && #[trigger] s2[a] is Some implies s2[a] != #[trigger] s2[b] by {
                    if a == i {
                        assert(!(s[b] == Some(key)));
                    } else if b == i {
                        assert(!(s[a] == Some(key)));
                    } else {
                        assert(s[a] is Some && s[a] != s[b]);
                    }
                }
            }
        }
    }
}

/// Bindings stay exclusive in the gamepad capture too (see
/// [`lemma_key_capture_exclusive`]).
pub proof fn lemma_pad_capture_exclusive(m: PauseMenu, pc: PadConfigInputs)
    requires
        captures_in_range(m),
        (m.pad_config matches Some(st) ==> distinct_bindings(st.staging.overrides@)),
    ensures
        pad_map_distinct(pad_config_step(m, pc).1),
        (pad_config_step(m, pc).0.pad_config matches Some(st) ==> distinct_bindings(st.staging.overrides@)),
{
    if pc.delete {
        assert(PadMap::none().overrides@ =~= Seq::new(3, |j: int| None::<i32>));
    } else if let Some(st) = m.pad_config {
        let s = st.staging.overrides@;
        let i = st.action_index as int;
        if pc.backspace {
            if st.action_index > 0 {
                let s2 = s.update(i - 1, None);
                assert forall|a: int, b: int| 0 <= a < b < s2.len() && #[trigger] s2[a] is Some implies s2[a] != #[trigger] s2[b] by {
                    assert(a != i - 1);
                    if b != i - 1 {
                        assert(s[a] is Some && s[a] != s[b]);
                    }
                }
            }
        } else if let Some(button) = pc.captured_button {
            if i < PAD_OVERRIDE_COUNT && !taken_elsewhere(s, i, button) {
                let s2 = s.update(i, Some(button));
                assert forall|a: int, b: int| 0 <= a < b < s2.len() && #[trigger] s2[a] is Some implies s2[a] != #[trigger] s2[b] by {
                    if a == i {
                        assert(!(s[b] == Some(button)));
                    } else if b == i {
                        assert(!(s[a] == Some(button)));
                    } else {
                        assert(s[a] is Some && s[a] != s[b]);
                    }
                }
            }
        }
    }
}

} // verus!
