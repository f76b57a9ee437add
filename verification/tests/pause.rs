use usagi::menu::top_count;
use usagi::pause::{
    is_reserved_key, CaptureInputs, KeyConfigInputs, Keymap, MenuInputs, PadConfigInputs, PadMap,
    PauseAction, PauseMenu, View, ACTION_COUNT, KEY_DELETE, KEY_ENTER, KEY_ESCAPE, KEY_LEFT_SHIFT,
};

// raylib key codes.
const KEY_SPACE: i32 = 32;
const KEY_A: i32 = 65;
const KEY_D: i32 = 68;
const KEY_J: i32 = 74;
const KEY_K: i32 = 75;
const KEY_L: i32 = 76;
const KEY_S: i32 = 83;
const KEY_W: i32 = 87;
const KEY_F5: i32 = 294;
// raylib gamepad button codes.
const GAMEPAD_BUTTON_RIGHT_FACE_RIGHT: i32 = 6;
const GAMEPAD_BUTTON_RIGHT_FACE_DOWN: i32 = 7;
const GAMEPAD_BUTTON_RIGHT_TRIGGER_1: i32 = 11;
const ACTION_LEFT: usize = 1;

fn none() -> MenuInputs {
    MenuInputs {
        toggle: false,
        start_press: false,
        up: false,
        down: false,
        left: false,
        right: false,
        btn1: false,
        btn2: false,
    }
}
fn toggle() -> MenuInputs {
    MenuInputs { toggle: true, ..none() }
}
fn start() -> MenuInputs {
    MenuInputs { toggle: true, start_press: true, ..none() }
}
fn up() -> MenuInputs {
    MenuInputs { up: true, ..none() }
}
fn down() -> MenuInputs {
    MenuInputs { down: true, ..none() }
}
fn left() -> MenuInputs {
    MenuInputs { left: true, ..none() }
}
fn right() -> MenuInputs {
    MenuInputs { right: true, ..none() }
}
fn btn1() -> MenuInputs {
    MenuInputs { btn1: true, ..none() }
}
fn btn2() -> MenuInputs {
    MenuInputs { btn2: true, ..none() }
}

const ITEM_SETTINGS: usize = 1;
const ITEM_CLEAR: usize = 2;
const ITEM_RESET: usize = 3;
const ITEM_QUIT: usize = 4;
const SETTINGS_ITEM_MUSIC: usize = 0;
const SETTINGS_ITEM_FULLSCREEN: usize = 2;
const SETTINGS_ITEM_INPUT: usize = 3;

fn step(m: &mut PauseMenu, i: MenuInputs) -> Option<PauseAction> {
    m.update_with(i, Keymap::default(), PadMap::default(), 0, CaptureInputs::default())
}

fn step_with(m: &mut PauseMenu, k: &Keymap, p: &PadMap, i: MenuInputs) -> Option<PauseAction> {
    m.update_with(i, *k, *p, 0, CaptureInputs::default())
}

fn capture(m: &mut PauseMenu, k: &Keymap, key: i32) -> Option<PauseAction> {
    let cap = CaptureInputs {
        kc: KeyConfigInputs { captured_key: Some(key), ..Default::default() },
        ..Default::default()
    };
    m.update_with(none(), *k, PadMap::default(), 0, cap)
}

fn capture_button(m: &mut PauseMenu, k: &Keymap, p: &PadMap, btn: i32) -> Option<PauseAction> {
    let cap = CaptureInputs {
        pc: PadConfigInputs { captured_button: Some(btn), ..Default::default() },
        ..Default::default()
    };
    m.update_with(none(), *k, *p, 0, cap)
}

fn delete(m: &mut PauseMenu, k: &Keymap) -> Option<PauseAction> {
    let cap = CaptureInputs { kc: KeyConfigInputs { delete: true, ..Default::default() }, ..Default::default() };
    m.update_with(none(), *k, PadMap::default(), 0, cap)
}

fn backspace(m: &mut PauseMenu, k: &Keymap) -> Option<PauseAction> {
    let cap = CaptureInputs { kc: KeyConfigInputs { backspace: true, ..Default::default() }, ..Default::default() };
    m.update_with(none(), *k, PadMap::default(), 0, cap)
}

fn pad_delete(m: &mut PauseMenu, k: &Keymap, p: &PadMap) -> Option<PauseAction> {
    let cap = CaptureInputs { pc: PadConfigInputs { delete: true, ..Default::default() }, ..Default::default() };
    m.update_with(none(), *k, *p, 0, cap)
}

fn pad_backspace(m: &mut PauseMenu, k: &Keymap, p: &PadMap) -> Option<PauseAction> {
    let cap = CaptureInputs { pc: PadConfigInputs { backspace: true, ..Default::default() }, ..Default::default() };
    m.update_with(none(), *k, *p, 0, cap)
}

fn enter_settings_at(m: &mut PauseMenu, target: usize) {
    step(m, toggle());
    for _ in 0..ITEM_SETTINGS {
        step(m, down());
    }
    step(m, btn1());
    assert_eq!(m.view, View::SettingsMenu);
    for _ in 0..target {
        step(m, down());
    }
    assert_eq!(m.settings_menu_selected, target);
}

fn enter_input_menu(m: &mut PauseMenu) {
    enter_settings_at(m, SETTINGS_ITEM_INPUT);
    step(m, btn1());
    assert_eq!(m.view, View::InputMenu);
}

fn open_to_pad_config(m: &mut PauseMenu) {
    enter_input_menu(m);
    step(m, down());
    step(m, down());
    step(m, btn1());
    assert_eq!(m.view, View::PadConfig);
}

fn open_to_key_config(m: &mut PauseMenu, k: &Keymap) {
    enter_input_menu(m);
    step_with(m, k, &PadMap::default(), down());
    step_with(m, k, &PadMap::default(), btn1());
}

fn open_to_pad_config_with(m: &mut PauseMenu, k: &Keymap, p: &PadMap) {
    enter_input_menu(m);
    step_with(m, k, p, down());
    step_with(m, k, p, down());
    step_with(m, k, p, btn1());
}

#[test]
fn toggle_opens_and_closes_menu() {
    let mut m = PauseMenu::new();
    let action = step(&mut m, toggle());
    assert!(m.open);
    assert_eq!(m.view, View::Top);
    assert_eq!(action, None);
    assert!(m.just_opened());
    let action = step(&mut m, toggle());
    assert!(!m.open);
    assert_eq!(action, Some(PauseAction::Resume));
    assert!(m.just_closed());
}

#[test]
fn down_then_up_wraps_through_top_items() {
    let mut m = PauseMenu::new();
    step(&mut m, toggle());
    step(&mut m, up());
    assert_eq!(m.top_selected, top_count(0) - 1);
    step(&mut m, down());
    assert_eq!(m.top_selected, 0);
}

#[test]
fn left_right_on_music_emits_set_music_volume() {
    let mut m = PauseMenu::new();
    enter_settings_at(&mut m, SETTINGS_ITEM_MUSIC);
    assert_eq!(step(&mut m, right()), Some(PauseAction::StepMusicVolume(1)));
    assert_eq!(step(&mut m, left()), Some(PauseAction::StepMusicVolume(-1)));
    step(&mut m, down());
    assert_eq!(step(&mut m, left()), Some(PauseAction::StepSfxVolume(-1)));
}

#[test]
fn left_right_on_fullscreen_emits_toggle() {
    let mut m = PauseMenu::new();
    enter_settings_at(&mut m, SETTINGS_ITEM_FULLSCREEN);
    assert_eq!(step(&mut m, right()), Some(PauseAction::ToggleFullscreen));
    assert_eq!(step(&mut m, left()), Some(PauseAction::ToggleFullscreen));
    assert_eq!(step(&mut m, btn1()), Some(PauseAction::ToggleFullscreen));
}

#[test]
fn confirm_clear_defaults_to_no_and_cancels_on_btn1() {
    let mut m = PauseMenu::new();
    step(&mut m, toggle());
    for _ in 0..ITEM_CLEAR {
        step(&mut m, down());
    }
    assert_eq!(m.top_selected, ITEM_CLEAR);
    assert_eq!(step(&mut m, btn1()), None);
    assert_eq!(m.view, View::ConfirmClearSave);
    assert_eq!(m.confirm_selected, 0);
    assert_eq!(step(&mut m, btn1()), None);
    assert_eq!(m.view, View::Top);
}

#[test]
fn confirm_clear_yes_emits_clear_save() {
    let mut m = PauseMenu::new();
    step(&mut m, toggle());
    for _ in 0..ITEM_CLEAR {
        step(&mut m, down());
    }
    step(&mut m, btn1());
    step(&mut m, down());
    assert_eq!(m.confirm_selected, 1);
    assert_eq!(step(&mut m, btn1()), Some(PauseAction::ClearSave));
    assert_eq!(m.view, View::Top);
}

#[test]
fn btn2_in_confirm_returns_to_top() {
    let mut m = PauseMenu::new();
    step(&mut m, toggle());
    for _ in 0..ITEM_CLEAR {
        step(&mut m, down());
    }
    step(&mut m, btn1());
    assert_eq!(m.view, View::ConfirmClearSave);
    assert_eq!(step(&mut m, btn2()), None);
    assert_eq!(m.view, View::Top);
}

#[test]
fn input_lands_on_input_menu_and_btn2_returns_to_settings() {
    let mut m = PauseMenu::new();
    enter_input_menu(&mut m);
    assert_eq!(m.input_menu_selected, 0);
    step(&mut m, btn2());
    assert_eq!(m.view, View::SettingsMenu);
}

#[test]
fn input_menu_test_enters_tester_and_buttons_are_not_consumed() {
    let mut m = PauseMenu::new();
    enter_input_menu(&mut m);
    step(&mut m, btn1());
    assert_eq!(m.view, View::InputTester);
    step(&mut m, btn1());
    assert_eq!(m.view, View::InputTester);
    step(&mut m, btn2());
    assert_eq!(m.view, View::InputTester);
    let action = step(&mut m, toggle());
    assert_eq!(action, None);
    assert_eq!(m.view, View::InputMenu);
    assert!(m.open);
}

#[test]
fn reset_and_quit_emit_their_actions() {
    let mut m = PauseMenu::new();
    step(&mut m, toggle());
    for _ in 0..ITEM_RESET {
        step(&mut m, down());
    }
    assert_eq!(step(&mut m, btn1()), Some(PauseAction::ResetGame));
    assert!(!m.open, "Reset Game should close the menu");

    step(&mut m, toggle());
    for _ in 0..ITEM_QUIT {
        step(&mut m, down());
    }
    assert_eq!(m.top_selected, ITEM_QUIT);
    assert_eq!(step(&mut m, btn1()), Some(PauseAction::Quit));
}

#[test]
fn toggle_climbs_one_level() {
    let mut m = PauseMenu::new();
    enter_input_menu(&mut m);
    let action = step(&mut m, toggle());
    assert_eq!(action, None);
    assert_eq!(m.view, View::SettingsMenu);
    let action = step(&mut m, toggle());
    assert_eq!(action, None);
    assert_eq!(m.view, View::Top);
    let action = step(&mut m, toggle());
    assert!(!m.open);
    assert_eq!(action, Some(PauseAction::Resume));
}

#[test]
fn pad_config_is_the_third_input_menu_item() {
    let mut m = PauseMenu::new();
    step(&mut m, toggle());
    for _ in 0..ITEM_SETTINGS {
        step(&mut m, down());
    }
    step(&mut m, btn1());
    for _ in 0..SETTINGS_ITEM_INPUT {
        step(&mut m, down());
    }
    step(&mut m, btn1());
    step(&mut m, down());
    step(&mut m, down());
    assert_eq!(m.input_menu_selected, 2);
    step(&mut m, btn1());
    assert_eq!(m.view, View::PadConfig);
    assert!(m.pad_config.is_some());
}

#[test]
fn start_during_pad_config_resets_and_drops_to_tester() {
    let mut m = PauseMenu::new();
    let k = Keymap::default();
    let mut p = PadMap::default();
    p.overrides[0] = Some(GAMEPAD_BUTTON_RIGHT_FACE_RIGHT);
    open_to_pad_config_with(&mut m, &k, &p);
    capture_button(&mut m, &k, &p, GAMEPAD_BUTTON_RIGHT_FACE_DOWN);
    match step_with(&mut m, &k, &p, start()) {
        Some(PauseAction::SetGamepadMap(pm)) => assert_eq!(pm, PadMap::default()),
        other => panic!("expected SetGamepadMap(default), got {other:?}"),
    }
    assert_eq!(m.view, View::InputTester);
    assert!(m.pad_config.is_none());
}

#[test]
fn esc_in_pad_config_climbs_one_level_without_resetting() {
    let mut m = PauseMenu::new();
    let k = Keymap::default();
    let mut p = PadMap::default();
    p.overrides[0] = Some(GAMEPAD_BUTTON_RIGHT_FACE_RIGHT);
    open_to_pad_config_with(&mut m, &k, &p);
    let action = step_with(&mut m, &k, &p, toggle());
    assert_eq!(action, None, "Esc must not emit a destructive reset");
    assert_eq!(m.view, View::InputMenu);
    assert!(m.pad_config.is_none());
}

#[test]
fn entering_key_config_seeds_staging_from_current_keymap() {
    let mut m = PauseMenu::new();
    let mut k = Keymap::default();
    k.overrides[ACTION_LEFT - 1] = Some(KEY_W);
    open_to_key_config(&mut m, &k);
    assert_eq!(m.view, View::KeyConfig);
    let state = m.key_config.as_ref().expect("key_config initialized");
    assert_eq!(state.action_index, 0);
    assert_eq!(state.staging.overrides[ACTION_LEFT - 1], Some(KEY_W));
}

#[test]
fn capturing_seven_keys_emits_set_keymap_and_returns_to_tester() {
    let mut m = PauseMenu::new();
    let k = Keymap::default();
    open_to_key_config(&mut m, &k);
    let captures = [KEY_A, KEY_D, KEY_W, KEY_S, KEY_J, KEY_K, KEY_L];
    assert_eq!(captures.len(), ACTION_COUNT);
    for key in &captures[..6] {
        assert_eq!(capture(&mut m, &k, *key), None);
    }
    match capture(&mut m, &k, captures[6]) {
        Some(PauseAction::SetKeymap(km)) => {
            for (i, key) in captures.iter().enumerate() {
                assert_eq!(km.overrides[i], Some(*key));
            }
        }
        other => panic!("expected SetKeymap, got {other:?}"),
    }
    assert_eq!(m.view, View::InputTester);
    assert!(m.key_config.is_none());
}

#[test]
fn toggle_during_key_config_cancels_capture_only() {
    let mut m = PauseMenu::new();
    let k = Keymap::default();
    open_to_key_config(&mut m, &k);
    capture(&mut m, &k, KEY_W);
    let action = step_with(&mut m, &k, &PadMap::default(), toggle());
    assert_eq!(action, None, "toggle in KeyConfig should not emit anything");
    assert_eq!(m.view, View::InputMenu);
    assert!(m.key_config.is_none());
    assert!(m.open, "menu stays open; only the capture was abandoned");
}

#[test]
fn duplicate_key_press_is_rejected_and_keeps_player_on_current_action() {
    let mut m = PauseMenu::new();
    let k = Keymap::default();
    open_to_key_config(&mut m, &k);
    capture(&mut m, &k, KEY_W);
    let state = m.key_config.as_ref().unwrap();
    assert_eq!(state.action_index, 1);
    assert_eq!(state.staging.overrides[0], Some(KEY_W));
    let action = capture(&mut m, &k, KEY_W);
    assert_eq!(action, None);
    let state = m.key_config.as_ref().unwrap();
    assert_eq!(state.action_index, 1);
    assert_eq!(state.staging.overrides[1], None);
}

#[test]
fn backspace_undoes_last_capture_and_steps_back_one_action() {
    let mut m = PauseMenu::new();
    let k = Keymap::default();
    open_to_key_config(&mut m, &k);
    capture(&mut m, &k, KEY_A);
    capture(&mut m, &k, KEY_D);
    let action = backspace(&mut m, &k);
    assert_eq!(action, None);
    let state = m.key_config.as_ref().unwrap();
    assert_eq!(state.action_index, 1);
    assert_eq!(state.staging.overrides[0], Some(KEY_A));
    assert_eq!(state.staging.overrides[1], None);
}

#[test]
fn backspace_at_first_action_is_a_noop() {
    let mut m = PauseMenu::new();
    let k = Keymap::default();
    open_to_key_config(&mut m, &k);
    let action = backspace(&mut m, &k);
    assert_eq!(action, None);
    let state = m.key_config.as_ref().unwrap();
    assert_eq!(state.action_index, 0);
    assert!(state.staging.overrides.iter().all(|s| s.is_none()));
}

#[test]
fn delete_during_key_config_emits_default_keymap() {
    let mut m = PauseMenu::new();
    let mut k = Keymap::default();
    k.overrides[0] = Some(KEY_W);
    open_to_key_config(&mut m, &k);
    capture(&mut m, &k, KEY_A);
    match delete(&mut m, &k) {
        Some(PauseAction::SetKeymap(km)) => assert_eq!(km, Keymap::default()),
        other => panic!("expected SetKeymap(default), got {other:?}"),
    }
    assert_eq!(m.view, View::InputTester);
    assert!(m.key_config.is_none());
}

#[test]
fn entering_pad_config_seeds_staging_from_current_pad_map() {
    let mut m = PauseMenu::new();
    let k = Keymap::default();
    let mut p = PadMap::default();
    p.overrides[0] = Some(GAMEPAD_BUTTON_RIGHT_TRIGGER_1);
    open_to_pad_config_with(&mut m, &k, &p);
    assert_eq!(m.view, View::PadConfig);
    let state = m.pad_config.as_ref().expect("pad_config initialized");
    assert_eq!(state.action_index, 0);
    assert_eq!(state.staging.overrides[0], Some(GAMEPAD_BUTTON_RIGHT_TRIGGER_1));
}

#[test]
fn capturing_three_buttons_emits_set_gamepad_map_and_returns_to_tester() {
    let mut m = PauseMenu::new();
    let k = Keymap::default();
    let p = PadMap::default();
    open_to_pad_config_with(&mut m, &k, &p);
    let captures = [
        GAMEPAD_BUTTON_RIGHT_FACE_DOWN,
        GAMEPAD_BUTTON_RIGHT_FACE_RIGHT,
        GAMEPAD_BUTTON_RIGHT_TRIGGER_1,
    ];
    for btn in &captures[..2] {
        assert_eq!(capture_button(&mut m, &k, &p, *btn), None);
    }
    match capture_button(&mut m, &k, &p, captures[2]) {
        Some(PauseAction::SetGamepadMap(pm)) => {
            for (i, btn) in captures.iter().enumerate() {
                assert_eq!(pm.overrides[i], Some(*btn));
            }
        }
        other => panic!("expected SetGamepadMap, got {other:?}"),
    }
    assert_eq!(m.view, View::InputTester);
    assert!(m.pad_config.is_none());
}

#[test]
fn duplicate_button_press_during_pad_config_is_rejected() {
    let mut m = PauseMenu::new();
    let k = Keymap::default();
    let p = PadMap::default();
    open_to_pad_config_with(&mut m, &k, &p);
    capture_button(&mut m, &k, &p, GAMEPAD_BUTTON_RIGHT_FACE_DOWN);
    let state = m.pad_config.as_ref().unwrap();
    assert_eq!(state.action_index, 1);
    assert_eq!(state.staging.overrides[0], Some(GAMEPAD_BUTTON_RIGHT_FACE_DOWN));
    let action = capture_button(&mut m, &k, &p, GAMEPAD_BUTTON_RIGHT_FACE_DOWN);
    assert_eq!(action, None);
    let state = m.pad_config.as_ref().unwrap();
    assert_eq!(state.action_index, 1);
    assert_eq!(state.staging.overrides[1], None);
}

#[test]
fn pad_backspace_undoes_last_capture() {
    let mut m = PauseMenu::new();
    let k = Keymap::default();
    let p = PadMap::default();
    open_to_pad_config_with(&mut m, &k, &p);
    capture_button(&mut m, &k, &p, GAMEPAD_BUTTON_RIGHT_FACE_DOWN);
    capture_button(&mut m, &k, &p, GAMEPAD_BUTTON_RIGHT_FACE_RIGHT);
    assert_eq!(pad_backspace(&mut m, &k, &p), None);
    let state = m.pad_config.as_ref().unwrap();
    assert_eq!(state.action_index, 1);
    assert_eq!(state.staging.overrides[0], Some(GAMEPAD_BUTTON_RIGHT_FACE_DOWN));
    assert_eq!(state.staging.overrides[1], None);
}

#[test]
fn pad_delete_emits_default_gamepad_map() {
    let mut m = PauseMenu::new();
    let k = Keymap::default();
    let mut p = PadMap::default();
    p.overrides[0] = Some(GAMEPAD_BUTTON_RIGHT_FACE_RIGHT);
    open_to_pad_config_with(&mut m, &k, &p);
    capture_button(&mut m, &k, &p, GAMEPAD_BUTTON_RIGHT_FACE_DOWN);
    match pad_delete(&mut m, &k, &p) {
        Some(PauseAction::SetGamepadMap(pm)) => assert_eq!(pm, PadMap::default()),
        other => panic!("expected SetGamepadMap(default), got {other:?}"),
    }
    assert_eq!(m.view, View::InputTester);
    assert!(m.pad_config.is_none());
}

#[test]
fn toggle_during_pad_config_cancels_capture_only() {
    let mut m = PauseMenu::new();
    let k = Keymap::default();
    let p = PadMap::default();
    open_to_pad_config_with(&mut m, &k, &p);
    capture_button(&mut m, &k, &p, GAMEPAD_BUTTON_RIGHT_FACE_DOWN);
    let action = step_with(&mut m, &k, &p, toggle());
    assert_eq!(action, None);
    assert_eq!(m.view, View::InputMenu);
    assert!(m.pad_config.is_none());
    assert!(m.open);
}

#[test]
fn reserved_keys_are_skipped_in_capture_filter() {
    assert!(is_reserved_key(KEY_ESCAPE));
    assert!(is_reserved_key(KEY_ENTER));
    assert!(is_reserved_key(KEY_DELETE));
    assert!(is_reserved_key(KEY_F5));
    assert!(is_reserved_key(KEY_LEFT_SHIFT));
    assert!(!is_reserved_key(KEY_W));
    assert!(!is_reserved_key(KEY_SPACE));
}

#[test]
fn capture_inputs_outside_the_configuration_scenes_do_nothing() {
    let mut m = PauseMenu::new();
    step(&mut m, toggle());
    let before = m;
    assert_eq!(capture(&mut m, &Keymap::default(), KEY_A), None);
    assert_eq!(m, PauseMenu { last_open: true, ..before });
}

#[test]
fn start_in_non_pad_views_keeps_climb_semantics() {
    let mut m = PauseMenu::new();
    step(&mut m, toggle());
    assert_eq!(step(&mut m, start()), Some(PauseAction::Resume));
    assert!(!m.open);

    step(&mut m, toggle());
    for _ in 0..ITEM_SETTINGS {
        step(&mut m, down());
    }
    step(&mut m, btn1());
    assert_eq!(m.view, View::SettingsMenu);
    assert_eq!(step(&mut m, start()), None);
    assert_eq!(m.view, View::Top);
}

fn btn1_top_at(m: &mut PauseMenu, items: usize, row: usize) -> Option<PauseAction> {
    m.update_with(toggle(), Keymap::default(), PadMap::default(), items, CaptureInputs::default());
    for _ in 0..row {
        m.update_with(down(), Keymap::default(), PadMap::default(), items, CaptureInputs::default());
    }
    assert_eq!(m.top_selected, row);
    m.update_with(btn1(), Keymap::default(), PadMap::default(), items, CaptureInputs::default())
}

#[test]
fn registered_menu_item_sits_between_continue_and_settings() {
    let mut m = PauseMenu::new();
    assert_eq!(btn1_top_at(&mut m, 1, 1), Some(PauseAction::FireMenuItem(0)));
    assert!(m.open);
    assert_eq!(m.view, View::Top);
    let mut m = PauseMenu::new();
    assert_eq!(btn1_top_at(&mut m, 1, 2), None);
    assert_eq!(m.view, View::SettingsMenu);
}

#[test]
fn multiple_registered_items_fire_with_correct_indices() {
    for (row, expected_idx) in [(1, 0), (2, 1), (3, 2)] {
        let mut m = PauseMenu::new();
        assert_eq!(btn1_top_at(&mut m, 3, row), Some(PauseAction::FireMenuItem(expected_idx)));
    }
}

#[test]
fn top_row_count_grows_with_registered_items() {
    let mut m = PauseMenu::new();
    let items = 2;
    m.update_with(toggle(), Keymap::default(), PadMap::default(), items, CaptureInputs::default());
    m.update_with(up(), Keymap::default(), PadMap::default(), items, CaptureInputs::default());
    assert_eq!(m.top_selected, top_count(items) - 1);
    m.update_with(down(), Keymap::default(), PadMap::default(), items, CaptureInputs::default());
    assert_eq!(m.top_selected, 0);
}

#[test]
fn closed_menu_ignores_everything_but_toggle() {
    let mut m = PauseMenu::new();
    for i in [up(), down(), left(), right(), btn1(), btn2()] {
        assert_eq!(step(&mut m, i), None);
        assert!(!m.open);
    }
}
