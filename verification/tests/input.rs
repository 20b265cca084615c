use remin::common::Input;
use remin::key::{Key, KeySet};
use remin::streamer::input::{
    direction_from_pressed, enigo_to_upper, Button, Direction, InputAction, InputProcessor,
    VirtualKey,
};
use remin::watcher::event_loop::{App, MouseButton, WindowAction, WindowEvent};

const A: Key = Key::Other(30);
const B: Key = Key::Other(48);

fn set(keys: &[Key]) -> KeySet {
    let mut set = KeySet::new();
    for key in keys {
        set.insert(*key);
    }
    set
}

fn held(keys: &[Key]) -> Input {
    Input {
        keys_pressed: set(keys),
        left_mouse_pressed: false,
        middle_mouse_pressed: false,
        right_mouse_pressed: false,
    }
}

fn key(key: Key, upper: bool, direction: Direction) -> InputAction {
    InputAction::Key { key, upper, direction }
}

fn typed(key: Key, pressed: bool) -> WindowEvent {
    WindowEvent::KeyboardInput { key: Some(key), pressed, ignored: false }
}

#[test]
fn a_set_holds_each_key_once() {
    let mut keys = KeySet::new();
    assert!(keys.insert(A));
    assert!(!keys.insert(A));
    assert!(keys.insert(Key::Shift));
    assert!(keys.contains(A));
    assert!(!keys.contains(B));
    assert_eq!(keys.keys().len(), 2);
    assert_eq!(keys.difference(&set(&[A, B])), [Key::Shift]);
    assert!(keys.remove(A));
    assert!(!keys.remove(A));
    assert_eq!(keys.keys(), [Key::Shift]);
}

#[test]
fn letters_become_upper_case() {
    assert_eq!(enigo_to_upper::<u8>(VirtualKey::Unicode('a')), VirtualKey::Unicode('A'));
    assert_eq!(enigo_to_upper::<u8>(VirtualKey::Unicode('z')), VirtualKey::Unicode('Z'));
    assert_eq!(enigo_to_upper::<u8>(VirtualKey::Unicode('Z')), VirtualKey::Unicode('Z'));
    assert_eq!(enigo_to_upper::<u8>(VirtualKey::Unicode('1')), VirtualKey::Unicode('1'));
    assert_eq!(enigo_to_upper::<u8>(VirtualKey::Unicode('{')), VirtualKey::Unicode('{'));
    assert_eq!(enigo_to_upper::<u8>(VirtualKey::Unicode('\u{e4}')), VirtualKey::Unicode('\u{e4}'));
    assert_eq!(enigo_to_upper::<u8>(VirtualKey::Special(7)), VirtualKey::Special(7));
}

#[test]
fn directions_follow_the_state() {
    assert_eq!(direction_from_pressed(true), Direction::Press);
    assert_eq!(direction_from_pressed(false), Direction::Release);
}

#[test]
fn keys_are_released_before_others_are_pressed() {
    let mut processor = InputProcessor::new();
    assert_eq!(
        processor.process(held(&[A]), &KeySet::new()),
        [key(A, false, Direction::Press)]
    );
    assert_eq!(
        processor.process(held(&[B]), &KeySet::new()),
        [key(A, false, Direction::Release), key(B, false, Direction::Press)]
    );
    assert_eq!(processor.process(held(&[B]), &KeySet::new()), []);
}

#[test]
fn a_key_is_released_in_the_case_in_which_it_was_pressed() {
    let mut processor = InputProcessor::new();
    processor.process(held(&[Key::Shift]), &KeySet::new());
    assert_eq!(
        processor.process(held(&[Key::Shift, A]), &KeySet::new()),
        [key(A, true, Direction::Press)]
    );
    // the shift key itself was pressed in upper case too
    assert_eq!(
        processor.process(held(&[A]), &KeySet::new()),
        [key(Key::Shift, true, Direction::Release)]
    );
    assert_eq!(
        processor.process(held(&[]), &KeySet::new()),
        [key(A, true, Direction::Release)]
    );
    assert_eq!(
        processor.process(held(&[A]), &KeySet::new()),
        [key(A, false, Direction::Press)]
    );
    processor.process(held(&[A, Key::Shift]), &KeySet::new());
    assert_eq!(
        processor.process(held(&[Key::Shift]), &KeySet::new()),
        [key(A, false, Direction::Release)]
    );
}

#[test]
fn ignored_keys_are_held_without_being_pressed() {
    let mut processor = InputProcessor::new();
    assert_eq!(processor.process(held(&[Key::Shift, A]), &set(&[A, Key::Shift])), []);
    assert_eq!(processor.process(held(&[Key::Shift, A]), &KeySet::new()), []);
    assert_eq!(
        processor.process(held(&[Key::Shift]), &KeySet::new()),
        [key(A, false, Direction::Release)]
    );
}

#[test]
fn mouse_buttons_move_when_they_change() {
    let mut processor = InputProcessor::new();
    let mut input = held(&[]);
    input.left_mouse_pressed = true;
    input.right_mouse_pressed = true;
    assert_eq!(
        processor.process(input, &KeySet::new()),
        [
            InputAction::Button { button: Button::Left, direction: Direction::Press },
            InputAction::Button { button: Button::Right, direction: Direction::Press },
        ]
    );
    let mut input = held(&[]);
    input.middle_mouse_pressed = true;
    input.right_mouse_pressed = true;
    assert_eq!(
        processor.process(input, &KeySet::new()),
        [
            InputAction::Button { button: Button::Left, direction: Direction::Release },
            InputAction::Button { button: Button::Middle, direction: Direction::Press },
        ]
    );
}

#[test]
fn keys_are_sent_when_they_change() {
    let mut app = App::new();
    assert_eq!(app.window_event(typed(A, true)), WindowAction::SendInput);
    assert!(app.input().keys_pressed.contains(A));
    assert_eq!(app.window_event(typed(A, true)), WindowAction::Nothing);
    assert_eq!(
        app.window_event(WindowEvent::KeyboardInput { key: Some(B), pressed: true, ignored: true }),
        WindowAction::Nothing
    );
    assert!(!app.input().keys_pressed.contains(B));
    assert_eq!(app.window_event(typed(A, false)), WindowAction::SendInput);
    assert!(app.input().keys_pressed.keys().is_empty());
    assert_eq!(app.window_event(typed(A, false)), WindowAction::SendInput);
    assert_eq!(
        app.window_event(WindowEvent::KeyboardInput { key: None, pressed: true, ignored: false }),
        WindowAction::Nothing
    );
}

#[test]
fn the_fullscreen_key_is_not_passed_on() {
    let mut app = App::new();
    assert_eq!(app.window_event(typed(Key::F11, true)), WindowAction::ToggleFullscreen);
    assert!(!app.input().keys_pressed.contains(Key::F11));
    assert_eq!(app.window_event(typed(Key::F11, false)), WindowAction::ToggleFullscreen);
}

#[test]
fn mouse_buttons_are_sent() {
    let mut app = App::new();
    for button in [MouseButton::Left, MouseButton::Right, MouseButton::Middle, MouseButton::Other] {
        assert_eq!(
            app.window_event(WindowEvent::MouseInput { button, pressed: true }),
            WindowAction::SendInput
        );
    }
    let input = app.input();
    assert!(input.left_mouse_pressed && input.middle_mouse_pressed && input.right_mouse_pressed);
    app.window_event(WindowEvent::MouseInput { button: MouseButton::Middle, pressed: false });
    assert!(!app.input().middle_mouse_pressed);
    assert!(app.input().right_mouse_pressed);
    assert_eq!(app.window_event(WindowEvent::MouseWheel), WindowAction::SendInput);
    assert_eq!(app.window_event(WindowEvent::Occluded), WindowAction::Nothing);
    assert_eq!(app.window_event(WindowEvent::Other), WindowAction::Nothing);
}

#[test]
fn the_mouse_moves_only_with_the_focus() {
    let mut app = App::new();
    assert!(!app.is_focused());
    assert_eq!(app.mouse_motion(), (false, false));
    assert_eq!(app.window_event(WindowEvent::Focused(true)), WindowAction::ConfineCursor);
    assert!(app.is_focused());
    assert_eq!(app.mouse_motion(), (true, true));
    assert_eq!(app.window_event(WindowEvent::Focused(false)), WindowAction::ReleaseCursor);
    assert_eq!(app.mouse_motion(), (false, false));
}

#[test]
fn motions_are_aggregated_until_the_input_is_sent() {
    let mut app = App::new();
    app.window_event(WindowEvent::Focused(true));
    assert_eq!(app.mouse_motion(), (true, true));
    assert_eq!(app.mouse_motion(), (true, false));
    assert_eq!(app.mouse_motion(), (true, false));
    assert_eq!(app.user_event(), WindowAction::SendInput);
    assert_eq!(app.mouse_motion(), (true, true));
    assert_eq!(app.mouse_motion(), (true, false));
}
