//! What the events of the window mean: which input is sent, and what becomes of the window.
use vstd::prelude::*;

use crate::common::Input;
use crate::key::Key;

verus! {

/// A mouse button.
#[derive(Debug, Clone, Copy, PartialEq, Eq, Structural)]
pub enum MouseButton {
    Left,
    Right,
    Middle,
    /// A button that is not passed on.
    Other,
}

/// An event of the window.
#[derive(Debug, Clone, Copy, PartialEq, Eq, Structural)]
pub enum WindowEvent {
    Focused(bool),
    /// The mouse wheel has been turned.
    MouseWheel,
    /// A key has been pressed or let go; no key, if it is unknown. `ignored` says whether the
    /// press of the key is to be ignored beside the keys that are held down.
    KeyboardInput { key: Option<Key>, pressed: bool, ignored: bool },
    MouseInput { button: MouseButton, pressed: bool },
    /// The window is covered, which is not handled.
    Occluded,
    /// Anything else.
    Other,
}

/// What is done about an event.
#[derive(Debug, Clone, Copy, PartialEq, Eq, Structural)]
pub enum WindowAction {
    /// Nothing.
    Nothing,
    /// Hide and confine the cursor.
    ConfineCursor,
    /// Show and release the cursor.
    ReleaseCursor,
    /// Switch between a window and the full screen.
    ToggleFullscreen,
    /// Send the input.
    SendInput,
}

/// What the event loop remembers.
#[verifier::ext_equal]
pub struct AppState {
    pub is_focused: bool,
    pub keys: Set<Key>,
    pub left: bool,
    pub middle: bool,
    pub right: bool,
    /// Whether sending the input has been scheduled.
    pub scheduled: bool,
}

impl AppState {
    /// At the start the window has no focus, nothing is held down, and nothing is scheduled.
    pub open spec fn start() -> AppState {
        AppState {
            is_focused: false,
            keys: Set::empty(),
            left: false,
            middle: false,
            right: false,
            scheduled: false,
        }
    }

    /// The key that switches to the full screen is not passed on.
    pub open spec fn valid(self) -> bool {
        !self.keys.contains(Key::F11)
    }

    /// Whether the press of a key changes nothing: the key is held down, or to be ignored.
    pub open spec fn press_is_dropped(self, key: Key, ignored: bool) -> bool {
        self.keys.contains(key) || ignored
    }

    /// Whether a motion of the mouse schedules sending the input: if the window has the focus, and
    /// it has not been scheduled before.
    pub open spec fn motion_schedules(self) -> bool {
        self.is_focused && !self.scheduled
    }

    /// What is remembered after a motion of the mouse.
    pub open spec fn after_motion(self) -> AppState {
        AppState { scheduled: self.scheduled || self.is_focused, ..self }
    }

    /// What is remembered after an event.
    pub open spec fn after(self, event: WindowEvent) -> AppState {
        match event {
            WindowEvent::Focused(focused) => AppState { is_focused: focused, ..self },
            WindowEvent::KeyboardInput { key: Some(key), pressed, ignored } => if key == Key::F11 || (
            pressed && self.press_is_dropped(key, ignored)) {
                self
            } else if pressed {
                AppState { keys: self.keys.insert(key), ..self }
            } else {
                AppState { keys: self.keys.remove(key), ..self }
            },
            WindowEvent::MouseInput { button, pressed } => match button {
                MouseButton::Left => AppState { left: pressed, ..self },
                MouseButton::Right => AppState { right: pressed, ..self },
                MouseButton::Middle => AppState { middle: pressed, ..self },
                MouseButton::Other => self,
            },
            _ => self,
        }
    }

    /// What is done about an event.
    pub open spec fn action(self, event: WindowEvent) -> WindowAction {
        match event {
            WindowEvent::Focused(focused) => if focused {
                WindowAction::ConfineCursor
            } else {
                WindowAction::ReleaseCursor
            },
            WindowEvent::MouseWheel => WindowAction::SendInput,
            WindowEvent::KeyboardInput { key: Some(key), pressed, ignored } => if key == Key::F11 {
                WindowAction::ToggleFullscreen
            } else if pressed && self.press_is_dropped(key, ignored) {
                WindowAction::Nothing
            } else {
                WindowAction::SendInput
            },
            WindowEvent::MouseInput { .. } => WindowAction::SendInput,
            _ => WindowAction::Nothing,
        }
    }
}

/// Turns the events of the window into input.
pub struct App {
    is_focused: bool,
    input: Input,
    /// True if sending the input has been scheduled. This is useful for aggregating input events
    /// that are otherwise emitted too often, such as raw mouse motion.
    on_input_scheduled: bool,
}

impl View for App {
    type V = AppState;

    closed spec fn view(&self) -> AppState {
        AppState {
            is_focused: self.is_focused,
            keys: self.input.keys_pressed@,
            left: self.input.left_mouse_pressed,
            middle: self.input.middle_mouse_pressed,
            right: self.input.right_mouse_pressed,
            scheduled: self.on_input_scheduled,
        }
    }
}

impl App {
    /// The window has no focus, and nothing is held down.
    pub fn new() -> (app: Self)
        ensures
            app@ == AppState::start(),
            forall|key: Key| !(#[trigger] app@.keys.contains(key)),
            !app@.is_focused && !app@.scheduled,
            !app@.left && !app@.middle && !app@.right,
    {
        App { is_focused: false, input: Input::default(), on_input_scheduled: false }
    }

    /// The input that is sent.
    pub fn input(&self) -> (input: &Input)
        ensures
            input.keys_pressed@ == self@.keys,
            input.left_mouse_pressed == self@.left,
            input.middle_mouse_pressed == self@.middle,
            input.right_mouse_pressed == self@.right,
    {
        &self.input
    }

    /// Whether the window has the focus.
    pub fn is_focused(&self) -> (r: bool)
        ensures
            r == self@.is_focused,
    {
        self.is_focused
    }

    /// What to do about an event of the window.
    pub fn window_event(&mut self, event: WindowEvent) -> (action: WindowAction)
        ensures
            final(self)@ == old(self)@.after(event),
            action == old(self)@.action(event),
    {
        match event {
            WindowEvent::Focused(focused) => {
                self.is_focused = focused;
                if focused {
                    WindowAction::ConfineCursor
                } else {
                    WindowAction::ReleaseCursor
                }
            },
            WindowEvent::MouseWheel => WindowAction::SendInput,
            WindowEvent::KeyboardInput { key, pressed, ignored } => {
                let key = match key {
                    Some(key) => key,
                    None => {
                        return WindowAction::Nothing;
                    },
                };
                if key == Key::F11 {
                    return WindowAction::ToggleFullscreen;
                }
                if pressed {
                    if self.input.keys_pressed.contains(key) || ignored {
                        return WindowAction::Nothing;
                    }
                    let _added = self.input.keys_pressed.insert(key);
                } else {
                    let _removed = self.input.keys_pressed.remove(key);
                }
                WindowAction::SendInput
            },
            WindowEvent::MouseInput { button, pressed } => {
                match button {
                    MouseButton::Left => {
                        self.input.left_mouse_pressed = pressed;
                    },
                    MouseButton::Right => {
                        self.input.right_mouse_pressed = pressed;
                    },
                    MouseButton::Middle => {
                        self.input.middle_mouse_pressed = pressed;
                    },
                    MouseButton::Other => {},
                }
                WindowAction::SendInput
            },
            WindowEvent::Occluded => WindowAction::Nothing,
            WindowEvent::Other => WindowAction::Nothing,
        }
    }

    /// What to do when the mouse has been moved: whether the motion counts, which it does only if
    /// the window has the focus, and whether sending the input is to be scheduled. It is not, if
    /// it has been scheduled before and not been done yet.
    pub fn mouse_motion(&mut self) -> (r: (bool, bool))
        ensures
            r.0 == old(self)@.is_focused,
            r.1 == old(self)@.motion_schedules(),
            r.1 <==> old(self)@.is_focused && !old(self)@.scheduled,
            final(self)@.scheduled <==> old(self)@.scheduled || old(self)@.is_focused,
            final(self)@ == old(self)@.after_motion(),
    {
        if !self.is_focused {
            return (false, false);
        }
        let schedule = !self.on_input_scheduled;
        self.on_input_scheduled = true;
        (true, schedule)
    }

    /// What to do when the time has come that was scheduled: send the input. From then on, sending
    /// it can be scheduled again.
    pub fn user_event(&mut self) -> (action: WindowAction)
        ensures
            action is SendInput,
            !final(self)@.scheduled,
            final(self)@ == (AppState { scheduled: false, ..old(self)@ }),
    {
        self.on_input_scheduled = false;
        WindowAction::SendInput
    }
}

/// How often sending the input is scheduled by some motions of the mouse, before any of what has
/// been scheduled is done.
pub open spec fn times_scheduled(state: AppState, motions: nat) -> nat
    decreases motions,
{
    if motions == 0 {
        0
    } else {
        times_scheduled(state, (motions - 1) as nat) + if after_motions(
            state,
            (motions - 1) as nat,
        ).motion_schedules() {
            1nat
        } else {
            0nat
        }
    }
}

/// What is remembered after some motions of the mouse.
pub open spec fn after_motions(state: AppState, motions: nat) -> AppState
    decreases motions,
{
    if motions == 0 {
        state
    } else {
        after_motions(state, (motions - 1) as nat).after_motion()
    }
}

/// Motions of the mouse are sent together: however many there are, sending the input is scheduled
/// once for all of them, and not at all if it has been scheduled before or the window has no focus.
/// What was scheduled is remembered, and nothing else changes.
pub proof fn law_motions_are_aggregated(state: AppState, motions: nat)
    ensures
        times_scheduled(state, motions) == if motions > 0 && state.motion_schedules() {
            1nat
        } else {
            0nat
        },
        after_motions(state, motions) == (AppState {
            scheduled: state.scheduled || (motions > 0 && state.is_focused),
            ..state
        }),
    decreases motions,
{
    if motions > 0 {
        law_motions_are_aggregated(state, (motions - 1) as nat);
    }
}

/// What is remembered after a sequence of events.
pub open spec fn after_events(state: AppState, events: Seq<WindowEvent>) -> AppState
    decreases events.len(),
{
    if events.len() == 0 {
        state
    } else {
        after_events(state, events.drop_last()).after(events.last())
    }
}

/// The key that switches to the full screen is never passed on, whatever happens.
pub proof fn law_fullscreen_key_stays_here(events: Seq<WindowEvent>)
    ensures
        after_events(AppState::start(), events).valid(),
    decreases events.len(),
{
    if events.len() > 0 {
        law_fullscreen_key_stays_here(events.drop_last());
    }
}

/// A key that is held down sends nothing more: pressing it again does nothing, and letting go of
/// it undoes the press.
pub proof fn law_key_press_and_release(state: AppState, key: Key)
    requires
        key != Key::F11,
        !state.keys.contains(key),
    ensures
        ({
            let press = WindowEvent::KeyboardInput { key: Some(key), pressed: true, ignored: false };
            let release = WindowEvent::KeyboardInput {
                key: Some(key),
                pressed: false,
                ignored: false,
            };
            let held = state.after(press);
            &&& held.keys.contains(key)
            &&& state.action(press) is SendInput
            &&& held.action(press) is Nothing
            &&& held.after(press) == held
            &&& held.action(release) is SendInput
            &&& held.after(release) == state
        }),
{
    let press = WindowEvent::KeyboardInput { key: Some(key), pressed: true, ignored: false };
    let release = WindowEvent::KeyboardInput { key: Some(key), pressed: false, ignored: false };
    assert(state.after(press).after(release) =~= state);
}

/// The focus follows the window, which confines the cursor while it has the focus, and nothing else
/// changes with it.
pub proof fn law_focus(state: AppState, focused: bool)
    ensures
        state.after(WindowEvent::Focused(focused)) == (AppState { is_focused: focused, ..state }),
        state.action(WindowEvent::Focused(true)) is ConfineCursor,
        state.action(WindowEvent::Focused(false)) is ReleaseCursor,
{
}

/// The mouse buttons follow the mouse: a button that is pressed is held, one that is let go is not,
/// the others stay as they are, and either is sent.
pub proof fn law_mouse_buttons(state: AppState, button: MouseButton, pressed: bool)
    ensures
        ({
            let event = WindowEvent::MouseInput { button, pressed };
            let after = state.after(event);
            &&& state.action(event) is SendInput
            &&& after.left == if button is Left { pressed } else { state.left }
            &&& after.middle == if button is Middle { pressed } else { state.middle }
            &&& after.right == if button is Right { pressed } else { state.right }
            &&& after.keys == state.keys
            &&& after.is_focused == state.is_focused
            &&& after.scheduled == state.scheduled
        }),
{
}

/// The keys follow the keyboard: after a key has been pressed, it is held, unless the press is to be
/// ignored, and after it has been let go, it is not. Another key stays as it is, and so does
/// everything else. The press of a key that is held, or to be ignored, does nothing.
pub proof fn law_keys(state: AppState, key: Key, other: Key, ignored: bool)
    requires
        key != Key::F11,
    ensures
        ({
            let press = WindowEvent::KeyboardInput { key: Some(key), pressed: true, ignored };
            let release = WindowEvent::KeyboardInput { key: Some(key), pressed: false, ignored };
            let pressed = state.after(press);
            let released = state.after(release);
            &&& pressed.keys.contains(key) <==> state.keys.contains(key) || !ignored
            &&& !released.keys.contains(key)
            &&& other != key ==> pressed.keys.contains(other) == state.keys.contains(other)
            &&& other != key ==> released.keys.contains(other) == state.keys.contains(other)
            &&& pressed == AppState { keys: pressed.keys, ..state }
            &&& released == AppState { keys: released.keys, ..state }
            &&& state.action(press) is SendInput <==> !state.keys.contains(key) && !ignored
            &&& state.action(press) is SendInput || state.action(press) is Nothing
            &&& state.action(release) is SendInput
        }),
{
}

/// The key that switches to the full screen does just that, and every other event changes nothing
/// that is remembered: turning the wheel sends the input, and the rest does nothing.
pub proof fn law_other_events(state: AppState, pressed: bool, ignored: bool)
    ensures
        ({
            let fullscreen = WindowEvent::KeyboardInput {
                key: Some(Key::F11),
                pressed,
                ignored,
            };
            let unknown = WindowEvent::KeyboardInput { key: None, pressed, ignored };
            &&& state.after(fullscreen) == state && state.action(fullscreen) is ToggleFullscreen
            &&& state.after(unknown) == state && state.action(unknown) is Nothing
            &&& state.after(WindowEvent::MouseWheel) == state
            &&& state.action(WindowEvent::MouseWheel) is SendInput
            &&& state.after(WindowEvent::Occluded) == state
            &&& state.action(WindowEvent::Occluded) is Nothing
            &&& state.after(WindowEvent::Other) == state
            &&& state.action(WindowEvent::Other) is Nothing
        }),
{
}

/// What is not sent has not changed: if an event does not send the input, what is held down is as
/// it was.
pub proof fn law_changes_are_sent(state: AppState, event: WindowEvent)
    ensures
        state.action(event) !is SendInput ==> {
            let after = state.after(event);
            &&& after.keys == state.keys
            &&& after.left == state.left
            &&& after.middle == state.middle
            &&& after.right == state.right
        },
{
}

} // verus!
