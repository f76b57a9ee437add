use usagi::frame::{frame_step, music_transition, shortcut_actions, FrameStep, ShortcutKeys};

fn none() -> ShortcutKeys {
    ShortcutKeys {
        enter_pressed: false,
        alt_down: false,
        grave_pressed: false,
        ctrl_down: false,
        super_down: false,
        f5_pressed: false,
        r_pressed: false,
        shift_down: false,
        escape_pressed: false,
        m_pressed: false,
        mod_just_pressed: false,
        g_pressed: false,
        g_down: false,
        f9_pressed: false,
        f_pressed: false,
        f_down: false,
        f8_pressed: false,
    }
}

#[test]
fn alt_enter_toggles_fullscreen_and_grave_the_fps_overlay() {
    let a = shortcut_actions(ShortcutKeys { enter_pressed: true, alt_down: true, ..none() }, false, true, true);
    assert!(a.toggle_fullscreen);
    assert!(!shortcut_actions(ShortcutKeys { enter_pressed: true, ..none() }, false, true, true).toggle_fullscreen);
    assert!(shortcut_actions(ShortcutKeys { grave_pressed: true, ..none() }, false, true, true).toggle_fps);
}

#[test]
fn reset_on_f5_ctrl_r_and_cmd_r() {
    assert!(shortcut_actions(ShortcutKeys { f5_pressed: true, ..none() }, false, false, true).reset);
    assert!(shortcut_actions(ShortcutKeys { r_pressed: true, ctrl_down: true, ..none() }, false, false, true).reset);
    assert!(shortcut_actions(ShortcutKeys { r_pressed: true, super_down: true, ..none() }, false, false, true).reset);
    assert!(!shortcut_actions(ShortcutKeys { r_pressed: true, ..none() }, false, false, true).reset);
}

#[test]
fn shift_escape_quits_only_in_dev_and_shift_m_needs_audio() {
    let k = ShortcutKeys { shift_down: true, escape_pressed: true, ..none() };
    assert!(shortcut_actions(k, true, true, true).quit);
    assert!(!shortcut_actions(k, false, true, true).quit);
    let m = ShortcutKeys { shift_down: true, m_pressed: true, ..none() };
    assert!(shortcut_actions(m, false, true, true).toggle_mute);
    assert!(!shortcut_actions(m, false, false, true).toggle_mute);
}

#[test]
fn capture_chords_fire_in_either_order() {
    assert!(shortcut_actions(ShortcutKeys { f9_pressed: true, ..none() }, false, false, true).save_recording);
    assert!(shortcut_actions(ShortcutKeys { g_pressed: true, super_down: true, ..none() }, false, false, true).save_recording);
    assert!(shortcut_actions(ShortcutKeys { mod_just_pressed: true, g_down: true, ..none() }, false, false, true).save_recording);
    assert!(shortcut_actions(ShortcutKeys { f8_pressed: true, ..none() }, false, false, true).screenshot);
    assert!(shortcut_actions(ShortcutKeys { f_pressed: true, ctrl_down: true, ..none() }, false, false, true).screenshot);
    assert!(!shortcut_actions(ShortcutKeys { f_down: true, ..none() }, false, false, true).screenshot);
    assert_eq!(
        shortcut_actions(none(), true, true, true),
        shortcut_actions(none(), false, false, true)
    );
}

#[test]
fn capture_shortcuts_are_off_without_a_captures_folder() {
    let f9 = ShortcutKeys { f9_pressed: true, f8_pressed: true, f5_pressed: true, ..none() };
    let a = shortcut_actions(f9, false, false, false);
    assert!(!a.save_recording);
    assert!(!a.screenshot);
    assert!(a.reset);
    let g = ShortcutKeys { g_pressed: true, f_pressed: true, ctrl_down: true, ..none() };
    let a = shortcut_actions(g, false, false, false);
    assert!(!a.save_recording && !a.screenshot);
}

#[test]
fn frame_steps() {
    assert_eq!(frame_step(true, false, false, true, true), FrameStep::Stop);
    assert_eq!(frame_step(false, false, true, false, false), FrameStep::Stop);
    assert_eq!(frame_step(false, false, false, true, true), FrameStep::Paused);
    assert_eq!(frame_step(false, false, false, false, true), FrameStep::Frozen);
    assert_eq!(frame_step(false, false, false, false, false), FrameStep::Run);
    let t = music_transition(true, false);
    assert!(t.pause && !t.resume);
    let t = music_transition(false, true);
    assert!(!t.pause && t.resume);
}
