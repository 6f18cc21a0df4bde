//! Per-frame decisions of the windowed engine that depend on input alone:
//! capturing the cursor for the first-person camera, and the render-debug
//! keys.

use vstd::prelude::*;

use crate::input::{action_active, InputCode, InputState, InputView, KeyCode, Phase};

verus! {

/// What to do with the window's cursor this frame.
#[derive(Debug, Clone, Copy)]
pub struct CursorChange {
    /// Release it and show it (Escape is held).
    pub release: bool,
    /// Grab it and hide it (an FPS action was just pressed while free).
    pub capture: bool,
}

/// The actions whose press captures the cursor.
pub open spec fn captures_cursor(b: crate::input::InputBindings, v: InputView) -> bool {
    ||| action_active(b, v, Phase::JustPressed, "attack"@)
    ||| action_active(b, v, Phase::JustPressed, "move_forward"@)
    ||| action_active(b, v, Phase::JustPressed, "move_backward"@)
    ||| action_active(b, v, Phase::JustPressed, "move_left"@)
    ||| action_active(b, v, Phase::JustPressed, "move_right"@)
    ||| action_active(b, v, Phase::JustPressed, "jump"@)
    ||| action_active(b, v, Phase::JustPressed, "interact"@)
}

/// Outside the editor, a held Escape frees the cursor; then, if the cursor
/// is free, pressing an attack, movement, jump or interact action captures
/// it. The editor leaves the cursor alone.
pub fn update_cursor_capture(input: &mut InputState, editor_mode: bool) -> (r: CursorChange)
    ensures
        final(input).bindings() == old(input).bindings(),
        editor_mode ==> !r.release && !r.capture && final(input)@ == old(input)@,
        !editor_mode ==> r.release == old(input)@.keys_held.contains(InputCode::Key(KeyCode::Escape)),
        !editor_mode ==> r.capture == (!(old(input)@.cursor_captured && !r.release) && captures_cursor(
            old(input).bindings(),
            old(input)@,
        )),
        !editor_mode ==> final(input)@ == (InputView {
            cursor_captured: r.capture || (old(input)@.cursor_captured && !r.release),
            ..old(input)@
        }),
{
    if editor_mode {
        return CursorChange { release: false, capture: false };
    }
    let release = input.key_held(KeyCode::Escape);
    if release {
        input.set_cursor_captured(false);
    }
    let mut capture = false;
    if !input.cursor_captured() {
        capture = input.just_pressed("attack") || input.just_pressed("move_forward") || input.just_pressed(
            "move_backward",
        ) || input.just_pressed("move_left") || input.just_pressed("move_right") || input.just_pressed("jump")
            || input.just_pressed("interact");
        if capture {
            input.set_cursor_captured(true);
        }
    }
    CursorChange { release, capture }
}

/// The on/off switches of the render-debug overlay.
#[derive(Debug, Clone, Copy)]
pub struct DebugToggles {
    pub show_hud: bool,
    pub bloom_enabled: bool,
    pub point_lights_enabled: bool,
    pub emission_enabled: bool,
    pub torch_flicker_enabled: bool,
}

/// The cycling settings the debug keys asked to advance this frame.
#[derive(Debug, Clone, Copy)]
pub struct DebugCycles {
    /// Key 2: the light intensity multiplier moves to its next step.
    pub light_intensity: bool,
    /// Key 6: the ambient override moves to its next step.
    pub ambient: bool,
}

/// The key went down this frame.
pub open spec fn pressed_now(v: InputView, k: KeyCode) -> bool {
    v.keys_just_pressed.contains(InputCode::Key(k))
}

/// Key 0 always toggles the overlay; keys 1 to 6 act only while the overlay
/// is shown (after key 0 took effect): 1 bloom, 3 point lights, 4 emission,
/// 5 torch flicker, and 2 and 6 advance their cycles.
pub fn apply_debug_keys(toggles: &mut DebugToggles, input: &InputState) -> (r: DebugCycles)
    ensures
        final(toggles).show_hud == (old(toggles).show_hud != pressed_now(input@, KeyCode::Digit0)),
        final(toggles).bloom_enabled == (old(toggles).bloom_enabled != (final(toggles).show_hud && pressed_now(
            input@,
            KeyCode::Digit1,
        ))),
        final(toggles).point_lights_enabled == (old(toggles).point_lights_enabled != (final(toggles).show_hud
            && pressed_now(input@, KeyCode::Digit3))),
        final(toggles).emission_enabled == (old(toggles).emission_enabled != (final(toggles).show_hud
            && pressed_now(input@, KeyCode::Digit4))),
        final(toggles).torch_flicker_enabled == (old(toggles).torch_flicker_enabled != (final(toggles).show_hud
            && pressed_now(input@, KeyCode::Digit5))),
        r.light_intensity == (final(toggles).show_hud && pressed_now(input@, KeyCode::Digit2)),
        r.ambient == (final(toggles).show_hud && pressed_now(input@, KeyCode::Digit6)),
{
    if input.just_pressed_key(KeyCode::Digit0) {
        toggles.show_hud = !toggles.show_hud;
    }
    let mut cycles = DebugCycles { light_intensity: false, ambient: false };
    if toggles.show_hud {
        if input.just_pressed_key(KeyCode::Digit1) {
            toggles.bloom_enabled = !toggles.bloom_enabled;
        }
        if input.just_pressed_key(KeyCode::Digit2) {
            cycles.light_intensity = true;
        }
        if input.just_pressed_key(KeyCode::Digit3) {
            toggles.point_lights_enabled = !toggles.point_lights_enabled;
        }
        if input.just_pressed_key(KeyCode::Digit4) {
            toggles.emission_enabled = !toggles.emission_enabled;
        }
        if input.just_pressed_key(KeyCode::Digit5) {
            toggles.torch_flicker_enabled = !toggles.torch_flicker_enabled;
        }
        if input.just_pressed_key(KeyCode::Digit6) {
            cycles.ambient = true;
        }
    }
    cycles
}

} // verus!
