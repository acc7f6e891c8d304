//! Decisions of the event loop: what each keyboard event turns into, and what
//! is left to do when the loop ends. Reading the keyboard and writing the
//! virtual devices is left to the caller.

use vstd::prelude::*;
use crate::config::BTN_LEFT;
use crate::key_mapper::{pressed_after, KeyMapper};

verus! {

/// The event type of key and button events.
pub const EV_KEY: u16 = 1;

/// What to do with one keyboard key event.
#[derive(Debug, PartialEq, Eq, Structural)]
pub enum Action {
    /// Nothing to emit.
    Nothing,
    /// Press the left mouse button.
    ButtonPress,
    /// Release the left mouse button.
    ButtonRelease,
    /// Forward the key event unchanged to the virtual keyboard.
    PassThrough { code: u16, value: i32 },
}

/// An input event to emit: type, code and value.
#[derive(Debug, PartialEq, Eq, Structural)]
pub struct OutputEvent {
    pub event_type: u16,
    pub code: u16,
    pub value: i32,
}

/// Whether a key event value is a press (1, or 2 for auto-repeat), a release
/// (0), or neither.
pub open spec fn key_value_kind(value: i32) -> Option<bool> {
    if value == 1 || value == 2 {
        Some(true)
    } else if value == 0 {
        Some(false)
    } else {
        None
    }
}

/// Classifies a key event value: `Some(true)` for a press or auto-repeat,
/// `Some(false)` for a release, `None` for anything else.
pub fn classify_key_value(value: i32) -> (kind: Option<bool>)
    ensures
        kind == key_value_kind(value),
{
    let is_press = value == 1 || value == 2;
    let is_release = value == 0;
    if !is_press && !is_release {
        None
    } else {
        Some(is_press)
    }
}

/// Handles one key event from the grabbed keyboard. Events that are neither
/// presses nor releases are dropped; events of mapped keys drive the key
/// mapper and press or release the mouse button when its state changes;
/// events of other keys are passed through unchanged.
pub fn handle_key_event(mapper: &mut KeyMapper, key_code: u16, value: i32) -> (action: Action)
    ensures
        final(mapper).mapped_keys() == old(mapper).mapped_keys(),
        key_value_kind(value) is None ==> action == Action::Nothing && final(mapper).pressed_keys()
            == old(mapper).pressed_keys() && final(mapper).mouse_button_pressed()
            == old(mapper).mouse_button_pressed(),
        key_value_kind(value) is Some && !old(mapper).mapped_keys().contains(key_code) ==> action
            == (Action::PassThrough { code: key_code, value }) && final(mapper).pressed_keys()
            == old(mapper).pressed_keys() && final(mapper).mouse_button_pressed()
            == old(mapper).mouse_button_pressed(),
        key_value_kind(value) is Some && old(mapper).mapped_keys().contains(key_code)
            ==> {
            &&& final(mapper).pressed_keys() == pressed_after(
                old(mapper).mapped_keys(),
                old(mapper).pressed_keys(),
                key_code,
                value != 0,
            )
            &&& final(mapper).mouse_button_pressed() == !final(mapper).pressed_keys().is_empty()
            &&& action == if final(mapper).mouse_button_pressed() == old(
                mapper,
            ).mouse_button_pressed() {
                Action::Nothing
            } else if final(mapper).mouse_button_pressed() {
                Action::ButtonPress
            } else {
                Action::ButtonRelease
            }
        },
{
    match classify_key_value(value) {
        None => Action::Nothing,
        Some(is_press) => {
            if mapper.is_mapped(key_code) {
                let state_changed = mapper.process_key_event(key_code, is_press);
                if state_changed {
                    if mapper.get_mouse_button_state() {
                        Action::ButtonPress
                    } else {
                        Action::ButtonRelease
                    }
                } else {
                    Action::Nothing
                }
            } else {
                Action::PassThrough { code: key_code, value }
            }
        },
    }
}

/// Ends a run: returns whether the mouse button is still held and must be
/// released, and resets the mapper.
pub fn finish(mapper: &mut KeyMapper) -> (release_button: bool)
    ensures
        release_button == old(mapper).mouse_button_pressed(),
        final(mapper).mapped_keys() == old(mapper).mapped_keys(),
        final(mapper).pressed_keys() == Set::<u16>::empty(),
        !final(mapper).mouse_button_pressed(),
{
    let release_button = mapper.get_mouse_button_state();
    mapper.reset();
    release_button
}

/// The event that presses (`true`) or releases (`false`) the left mouse button.
pub fn button_event(pressed: bool) -> (e: OutputEvent)
    ensures
        e == (OutputEvent { event_type: EV_KEY, code: BTN_LEFT, value: if pressed { 1i32 } else { 0i32 } }),
{
    OutputEvent { event_type: EV_KEY, code: BTN_LEFT, value: if pressed { 1 } else { 0 } }
}

/// The event that forwards a key event to the virtual keyboard.
pub fn key_event(code: u16, value: i32) -> (e: OutputEvent)
    ensures
        e == (OutputEvent { event_type: EV_KEY, code, value }),
{
    OutputEvent { event_type: EV_KEY, code, value }
}

impl Action {
    /// The event to emit for this action, if any.
    pub fn output_event(&self) -> (e: Option<OutputEvent>)
        ensures
            e == match *self {
                Action::Nothing => None,
                Action::ButtonPress => Some(OutputEvent { event_type: EV_KEY, code: BTN_LEFT, value: 1 }),
                Action::ButtonRelease => Some(OutputEvent { event_type: EV_KEY, code: BTN_LEFT, value: 0 }),
                Action::PassThrough { code, value } => Some(OutputEvent { event_type: EV_KEY, code, value }),
            },
    {
        match self {
            Action::Nothing => None,
            Action::ButtonPress => Some(button_event(true)),
            Action::ButtonRelease => Some(button_event(false)),
            Action::PassThrough { code, value } => Some(key_event(*code, *value)),
        }
    }
}

} // verus!
