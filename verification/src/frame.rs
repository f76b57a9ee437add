//! The per-frame decisions of a game session: which global shortcuts
//! fire, whether the frame runs, and how the music follows the pause
//! menu. The session samples the keys and carries out what is decided.

use vstd::prelude::*;

verus! {

/// The key states a frame's shortcuts are decided from. `..._pressed`
/// means the key went down this frame, `..._down` that it is held.
#[derive(Copy, Clone, Debug, PartialEq, Eq, Structural)]
pub struct ShortcutKeys {
    pub enter_pressed: bool,
    /// Either Alt key is held.
    pub alt_down: bool,
    /// The `~` / backtick key went down.
    pub grave_pressed: bool,
    /// Either Control key or Caps Lock is held (Caps Lock counts, for
    /// setups that remap it to Control where the window system misses it).
    pub ctrl_down: bool,
    /// Either Super (Cmd) key is held.
    pub super_down: bool,
    pub f5_pressed: bool,
    pub r_pressed: bool,
    /// Either Shift key is held.
    pub shift_down: bool,
    pub escape_pressed: bool,
    pub m_pressed: bool,
    /// A Control or Super key went down this frame.
    pub mod_just_pressed: bool,
    pub g_pressed: bool,
    pub g_down: bool,
    pub f9_pressed: bool,
    pub f_pressed: bool,
    pub f_down: bool,
    pub f8_pressed: bool,
}

/// What the global shortcuts ask for this frame.
#[derive(Copy, Clone, Debug, PartialEq, Eq, Structural)]
pub struct ShortcutActions {
    /// Alt+Enter: toggle borderless fullscreen.
    pub toggle_fullscreen: bool,
    /// `~`: toggle the FPS overlay.
    pub toggle_fps: bool,
    /// F5, Ctrl+R or Cmd+R: run `_init()` again.
    pub reset: bool,
    /// Shift+Esc, in `usagi dev` only: quit.
    pub quit: bool,
    /// Shift+M, when there is audio: mute, or restore the volumes.
    pub toggle_mute: bool,
    /// F9, Ctrl+G or Cmd+G: save the rolling recording as a GIF.
    pub save_recording: bool,
    /// F8, Ctrl+F or Cmd+F: save a screenshot.
    pub screenshot: bool,
}

/// Decides the global shortcuts of a frame from the key states, whether
/// the session is a `dev` one, whether it has audio, and whether the
/// build can save captures (native builds can; web builds have no
/// captures folder, so recording and screenshot shortcuts are off
/// there). A modifier chord counts both when the letter goes down with
/// the modifier held and when the modifier goes down with the letter
/// held.
pub fn shortcut_actions(k: ShortcutKeys, dev: bool, has_audio: bool, captures: bool) -> (r: ShortcutActions)
    ensures
        r.toggle_fullscreen == (k.enter_pressed && k.alt_down),
        r.toggle_fps == k.grave_pressed,
        r.reset == (k.f5_pressed || (k.r_pressed && (k.ctrl_down || k.super_down))),
        r.quit == (dev && k.shift_down && k.escape_pressed),
        r.toggle_mute == (k.m_pressed && k.shift_down && has_audio),
        r.save_recording == (captures && (k.f9_pressed || (k.g_pressed && (k.ctrl_down || k.super_down))
            || (k.mod_just_pressed && k.g_down))),
        r.screenshot == (captures && (k.f8_pressed || (k.f_pressed && (k.ctrl_down || k.super_down))
            || (k.mod_just_pressed && k.f_down))),
{
    let mod_held = k.ctrl_down || k.super_down;
    ShortcutActions {
        toggle_fullscreen: k.enter_pressed && k.alt_down,
        toggle_fps: k.grave_pressed,
        reset: k.f5_pressed || (k.r_pressed && mod_held),
        quit: dev && k.shift_down && k.escape_pressed,
        toggle_mute: k.m_pressed && k.shift_down && has_audio,
        save_recording: captures && (k.f9_pressed || (k.g_pressed && mod_held) || (k.mod_just_pressed && k.g_down)),
        screenshot: captures && (k.f8_pressed || (k.f_pressed && mod_held) || (k.mod_just_pressed && k.f_down)),
    }
}

/// What a frame does.
#[derive(Copy, Clone, Debug, PartialEq, Eq, Structural)]
pub enum FrameStep {
    /// The session ends: the window is closing or a quit was asked for.
    Stop,
    /// The pause menu is open: the game is drawn under the menu, but
    /// `_update` does not run.
    Paused,
    /// A hitstop freezes the game: `_draw` runs, `_update` does not.
    Frozen,
    /// `_update` and `_draw` both run.
    Run,
}

/// The step of a frame: stop when the window closes, the engine or a
/// shortcut asked to quit, or the game called `usagi.quit()`; otherwise
/// pause while the menu is open, skip the update while frozen, else run.
pub fn frame_step(close: bool, quit: bool, lua_quit: bool, menu_open: bool, frozen: bool) -> (r: FrameStep)
    ensures
        r == (if close || quit || lua_quit {
            FrameStep::Stop
        } else if menu_open {
            FrameStep::Paused
        } else if frozen {
            FrameStep::Frozen
        } else {
            FrameStep::Run
        }),
{
    if close || quit || lua_quit {
        FrameStep::Stop
    } else if menu_open {
        FrameStep::Paused
    } else if frozen {
        FrameStep::Frozen
    } else {
        FrameStep::Run
    }
}

/// How the music follows the pause menu this frame; a pause, when both
/// apply, comes before the resume.
#[derive(Copy, Clone, Debug, PartialEq, Eq, Structural)]
pub struct MusicTransition {
    /// The menu just opened: pause the music.
    pub pause: bool,
    /// The menu just closed: resume the music.
    pub resume: bool,
}

/// The music pauses when the menu has just opened and resumes when it has
/// just closed.
pub fn music_transition(just_opened: bool, just_closed: bool) -> (r: MusicTransition)
    ensures
        r.pause == just_opened,
        r.resume == just_closed,
{
    MusicTransition { pause: just_opened, resume: just_closed }
}

} // verus!
