//! What the other side's input means for the virtual keyboard and mouse.
use vstd::prelude::*;

use crate::common::Input;
use crate::key::{Key, KeySet};

verus! {

/// Whether a key or button goes down or up.
#[derive(Debug, Clone, Copy, PartialEq, Eq, Structural)]
pub enum Direction {
    Press,
    Release,
}

/// A mouse button.
#[derive(Debug, Clone, Copy, PartialEq, Eq, Structural)]
pub enum Button {
    Left,
    Middle,
    Right,
}

/// A key of the virtual keyboard: a character, or a key that stands for none.
#[derive(Debug, PartialEq, Eq)]
pub enum VirtualKey<K> {
    Unicode(char),
    Special(K),
}

/// One thing to do with the virtual keyboard or mouse.
#[derive(Debug, Clone, Copy, PartialEq, Eq, Structural)]
pub enum InputAction {
    /// Move a key; `upper` asks for the upper case of its character.
    Key { key: Key, upper: bool, direction: Direction },
    /// Move a mouse button.
    Button { button: Button, direction: Direction },
}

/// The direction in which a key or button goes that is now held down or not.
pub open spec fn direction_of(pressed: bool) -> Direction {
    if pressed {
        Direction::Press
    } else {
        Direction::Release
    }
}

/// The direction in which a key or button goes that is now held down or not.
pub fn direction_from_pressed(pressed: bool) -> (direction: Direction)
    ensures
        direction == direction_of(pressed),
{
    match pressed {
        true => Direction::Press,
        false => Direction::Release,
    }
}

/// The upper case of an ASCII letter; any other character as it is.
pub open spec fn ascii_upper(c: char) -> char {
    if 'a' <= c <= 'z' {
        (c as u32 - 32) as char
    } else {
        c
    }
}

/// The key that types the upper case of an ASCII letter; any other key as it is.
pub fn enigo_to_upper<K>(key: VirtualKey<K>) -> (upper: VirtualKey<K>)
    ensures
        upper == match key {
            VirtualKey::Unicode(c) => VirtualKey::Unicode(ascii_upper(c)),
            VirtualKey::Special(k) => VirtualKey::Special(k),
        },
{
    match key {
        VirtualKey::Unicode(c) => VirtualKey::Unicode(
            if 'a' <= c && c <= 'z' {
                (c as u8 - 32) as char
            } else {
                c
            },
        ),
        VirtualKey::Special(k) => VirtualKey::Special(k),
    }
}

/// What the input handler remembers.
#[verifier::ext_equal]
pub struct Held {
    /// The keys that are held down.
    pub keys: Set<Key>,
    /// Those of them that were pressed in upper case.
    pub upper: Set<Key>,
    pub left: bool,
    pub middle: bool,
    pub right: bool,
}

impl Held {
    /// Nothing is held down.
    pub open spec fn nothing() -> Held {
        Held {
            keys: Set::empty(),
            upper: Set::empty(),
            left: false,
            middle: false,
            right: false,
        }
    }

    /// Only a key that is held down was pressed in upper case.
    pub open spec fn valid(self) -> bool {
        self.upper.subset_of(self.keys)
    }

    /// The keys that are let go when `keys` are held down.
    pub open spec fn released(self, keys: Set<Key>) -> Set<Key> {
        self.keys.difference(keys)
    }

    /// The keys that are pressed when `keys` are held down, but for those to be ignored.
    pub open spec fn pressed(self, keys: Set<Key>, ignored: Set<Key>) -> Set<Key> {
        keys.difference(self.keys).difference(ignored)
    }

    /// What is remembered once `input` holds.
    pub open spec fn after(self, input: Input, ignored: Set<Key>) -> Held {
        let keys = input.keys_pressed@;
        let kept = self.upper.difference(self.released(keys));
        Held {
            keys,
            upper: if keys.contains(Key::Shift) {
                kept.union(self.pressed(keys, ignored))
            } else {
                kept
            },
            left: input.left_mouse_pressed,
            middle: input.middle_mouse_pressed,
            right: input.right_mouse_pressed,
        }
    }
}

/// A key is let go in the case in which it was pressed.
pub open spec fn release_action(key: Key, upper: Set<Key>) -> InputAction {
    InputAction::Key { key, upper: upper.contains(key), direction: Direction::Release }
}

/// A key is pressed in upper case if the shift key is held down.
pub open spec fn press_action(key: Key, shift: bool) -> InputAction {
    InputAction::Key { key, upper: shift, direction: Direction::Press }
}

/// What a mouse button does if it is not as it was.
pub open spec fn button_action(button: Button, before: bool, now: bool) -> Seq<InputAction> {
    if before != now {
        seq![InputAction::Button { button, direction: direction_of(now) }]
    } else {
        Seq::empty()
    }
}

/// What the mouse buttons do: first the left one, then the middle one, then the right one.
pub open spec fn button_actions(held: Held, input: Input) -> Seq<InputAction> {
    button_action(Button::Left, held.left, input.left_mouse_pressed) + button_action(
        Button::Middle,
        held.middle,
        input.middle_mouse_pressed,
    ) + button_action(Button::Right, held.right, input.right_mouse_pressed)
}

/// Whether `keys` lists each element of `set` once.
pub open spec fn lists(keys: Seq<Key>, set: Set<Key>) -> bool {
    keys.no_duplicates() && keys.to_set() == set
}

/// Whether these are the things to do when `input` comes in: first the keys that are let go, then
/// the keys that are pressed, each of them once and in any order, then the mouse buttons.
pub open spec fn follows(
    actions: Seq<InputAction>,
    held: Held,
    input: Input,
    ignored: Set<Key>,
) -> bool {
    let keys = input.keys_pressed@;
    exists|released: Seq<Key>, pressed: Seq<Key>|
        {
            &&& #[trigger] lists(released, held.released(keys))
            &&& #[trigger] lists(pressed, held.pressed(keys, ignored))
            &&& actions == released.map_values(|key: Key| release_action(key, held.upper))
                + pressed.map_values(|key: Key| press_action(key, keys.contains(Key::Shift)))
                + button_actions(held, input)
        }
}

/// Turns input into things to do with the virtual keyboard and mouse.
pub struct InputProcessor {
    prev_input: Input,
    keys_pressed_upper: KeySet,
}

impl View for InputProcessor {
    type V = Held;

    closed spec fn view(&self) -> Held {
        Held {
            keys: self.prev_input.keys_pressed@,
            upper: self.keys_pressed_upper@,
            left: self.prev_input.left_mouse_pressed,
            middle: self.prev_input.middle_mouse_pressed,
            right: self.prev_input.right_mouse_pressed,
        }
    }
}

impl InputProcessor {
    /// Nothing is held down.
    pub fn new() -> (processor: Self)
        ensures
            processor@ == Held::nothing(),
            forall|key: Key| !(#[trigger] processor@.keys.contains(key)),
            forall|key: Key| !(#[trigger] processor@.upper.contains(key)),
            !processor@.left && !processor@.middle && !processor@.right,
    {
        InputProcessor { prev_input: Input::default(), keys_pressed_upper: KeySet::new() }
    }

    /// Lets go of the keys that are no longer held down.
    fn release_keys(&mut self, keys: &Vec<Key>) -> (actions: Vec<InputAction>)
        requires
            keys@.no_duplicates(),
        ensures
            actions@ == keys@.map_values(|key: Key| release_action(key, old(self)@.upper)),
            final(self)@ == (Held {
                upper: old(self)@.upper.difference(keys@.to_set()),
                ..old(self)@
            }),
    {
        let ghost held = self@;
        let mut actions: Vec<InputAction> = Vec::new();
        let mut i: usize = 0;
        assert(keys@.take(0).to_set() =~= Set::<Key>::empty());
        assert(held.upper.difference(keys@.take(0).to_set()) =~= held.upper);
        while i < keys.len()
            invariant
                i <= keys@.len(),
                keys@.no_duplicates(),
                held == old(self)@,
                actions@ == keys@.take(i as int).map_values(
                    |key: Key| release_action(key, held.upper),
                ),
                self@ == (Held {
                    upper: held.upper.difference(keys@.take(i as int).to_set()),
                    ..held
                }),
            decreases keys@.len() - i,
        {
            let key = keys[i];
            proof {
                let seen = keys@.take(i as int);
                assert(keys@.take(i + 1) =~= seen.push(key));
                assert(!seen.contains(key));
                lemma_to_set_push(seen, key);
            }
            let upper = self.keys_pressed_upper.remove(key);
            actions.push(InputAction::Key { key, upper, direction: Direction::Release });
            i = i + 1;
            proof {
                assert(self@.upper =~= held.upper.difference(keys@.take(i as int).to_set()));
                assert(actions@ =~= keys@.take(i as int).map_values(
                    |key: Key| release_action(key, held.upper),
                ));
            }
        }
        assert(keys@.take(i as int) =~= keys@);
        actions
    }

    /// Presses the keys that are newly held down, but for those to be ignored. Returns the things
    /// to do; `shift` says whether the shift key is held down.
    fn press_keys(&mut self, keys: &Vec<Key>, ignored: &KeySet, shift: bool) -> (r: (
        Vec<InputAction>,
        Ghost<Seq<Key>>,
    ))
        requires
            keys@.no_duplicates(),
        ensures
            lists(r.1@, keys@.to_set().difference(ignored@)),
            r.0@ == r.1@.map_values(|key: Key| press_action(key, shift)),
            final(self)@ == (Held {
                upper: if shift {
                    old(self)@.upper.union(keys@.to_set().difference(ignored@))
                } else {
                    old(self)@.upper
                },
                ..old(self)@
            }),
    {
        let ghost held = self@;
        let ghost mut pressed: Seq<Key> = Seq::empty();
        let mut actions: Vec<InputAction> = Vec::new();
        let mut i: usize = 0;
        proof {
            assert(keys@.take(0).to_set() =~= Set::<Key>::empty());
            assert(pressed.to_set() =~= Set::<Key>::empty());
            assert(pressed.to_set() =~= keys@.take(0).to_set().difference(ignored@));
            assert(held.upper.union(pressed.to_set()) =~= held.upper);
            assert(actions@ =~= pressed.map_values(|key: Key| press_action(key, shift)));
        }
        while i < keys.len()
            invariant
                i <= keys@.len(),
                keys@.no_duplicates(),
                held == old(self)@,
                lists(pressed, keys@.take(i as int).to_set().difference(ignored@)),
                actions@ == pressed.map_values(|key: Key| press_action(key, shift)),
                self@ == (Held {
                    upper: if shift {
                        held.upper.union(pressed.to_set())
                    } else {
                        held.upper
                    },
                    ..held
                }),
            decreases keys@.len() - i,
        {
            let key = keys[i];
            let ghost before = pressed;
            proof {
                let seen = keys@.take(i as int);
                assert(keys@.take(i + 1) =~= seen.push(key));
                assert(!seen.contains(key));
                assert(!seen.to_set().contains(key));
                assert(!before.to_set().contains(key));
                assert(!before.contains(key));
                lemma_to_set_push(seen, key);
                lemma_to_set_push(before, key);
            }
            if !ignored.contains(key) {
                if shift {
                    let _added = self.keys_pressed_upper.insert(key);
                }
                actions.push(InputAction::Key { key, upper: shift, direction: Direction::Press });
                proof {
                    pressed = before.push(key);
                    assert(actions@ =~= pressed.map_values(|key: Key| press_action(key, shift)));
                    if shift {
                        assert(self@.upper =~= held.upper.union(pressed.to_set()));
                    }
                }
            }
            i = i + 1;
            assert(pressed.to_set() =~= keys@.take(i as int).to_set().difference(ignored@));
        }
        assert(keys@.take(i as int) =~= keys@);
        (actions, Ghost(pressed))
    }

    /// What to do when `input` comes in. The keys in `ignored` are held down without being
    /// pressed.
    pub fn process(&mut self, input: Input, ignored: &KeySet) -> (actions: Vec<InputAction>)
        ensures
            final(self)@ == old(self)@.after(input, ignored@),
            follows(actions@, old(self)@, input, ignored@),
    {
        let ghost held = self@;
        let ghost keys = input.keys_pressed@;
        let just_released = self.prev_input.keys_pressed.difference(&input.keys_pressed);
        let just_pressed = input.keys_pressed.difference(&self.prev_input.keys_pressed);
        let shift = input.keys_pressed.contains(Key::Shift);
        let mut actions = self.release_keys(&just_released);
        let (mut presses, Ghost(pressed)) = self.press_keys(&just_pressed, ignored, shift);
        let ghost key_actions = actions@ + presses@;
        actions.append(&mut presses);
        if input.left_mouse_pressed != self.prev_input.left_mouse_pressed {
            actions.push(
                InputAction::Button {
                    button: Button::Left,
                    direction: direction_from_pressed(input.left_mouse_pressed),
                },
            );
        }
        if input.middle_mouse_pressed != self.prev_input.middle_mouse_pressed {
            actions.push(
                InputAction::Button {
                    button: Button::Middle,
                    direction: direction_from_pressed(input.middle_mouse_pressed),
                },
            );
        }
        if input.right_mouse_pressed != self.prev_input.right_mouse_pressed {
            actions.push(
                InputAction::Button {
                    button: Button::Right,
                    direction: direction_from_pressed(input.right_mouse_pressed),
                },
            );
        }
        proof {
            assert(actions@ =~= key_actions + button_actions(held, input));
            assert(lists(just_released@, held.released(keys)));
            assert(lists(pressed, held.pressed(keys, ignored@)));
        }
        self.prev_input = input;
        assert(self@ =~= held.after(input, ignored@));
        actions
    }
}

/// The elements of a sequence after one has been added.
proof fn lemma_to_set_push(keys: Seq<Key>, key: Key)
    ensures
        keys.push(key).to_set() == keys.to_set().insert(key),
{
    assert forall|k: Key| keys.push(key).to_set().contains(k) <==> keys.to_set().insert(
        key,
    ).contains(k) by {
        if keys.contains(k) {
            let i = choose|i: int| 0 <= i < keys.len() && keys[i] == k;
            assert(keys.push(key)[i] == k);
        }
        if k == key {
            assert(keys.push(key)[keys.len() as int] == k);
        }
    }
    assert(keys.push(key).to_set() =~= keys.to_set().insert(key));
}

/// Only keys that are held down count as pressed in upper case, at the start and after every
/// input.
pub proof fn law_upper_keys_are_held(held: Held, input: Input, ignored: Set<Key>)
    ensures
        Held::nothing().valid(),
        held.valid() ==> held.after(input, ignored).valid(),
{
}

/// What is remembered after a sequence of inputs, each with the keys to be ignored.
pub open spec fn after_inputs(held: Held, inputs: Seq<(Input, Set<Key>)>) -> Held
    decreases inputs.len(),
{
    if inputs.len() == 0 {
        held
    } else {
        after_inputs(held, inputs.drop_last()).after(inputs.last().0, inputs.last().1)
    }
}

/// A key is let go in the case in which it was pressed: from the input that presses it, through
/// any number of inputs that hold it down, it is in upper case exactly if the shift key was held
/// down when it was pressed.
pub proof fn law_released_as_pressed(held: Held, inputs: Seq<(Input, Set<Key>)>, key: Key)
    requires
        held.valid(),
        inputs.len() > 0,
        !held.keys.contains(key),
        !inputs[0].1.contains(key),
        forall|k: int| 0 <= k < inputs.len() ==> (#[trigger] inputs[k]).0.keys_pressed@.contains(key),
    ensures
        after_inputs(held, inputs).keys.contains(key),
        release_action(key, after_inputs(held, inputs).upper) == (InputAction::Key {
            key,
            upper: inputs[0].0.keys_pressed@.contains(Key::Shift),
            direction: Direction::Release,
        }),
    decreases inputs.len(),
{
    let earlier = inputs.drop_last();
    assert(inputs.last() == inputs[inputs.len() - 1]);
    if inputs.len() == 1 {
        assert(after_inputs(held, earlier) == held);
    } else {
        assert forall|k: int| 0 <= k < earlier.len() implies (#[trigger] earlier[k]).0.keys_pressed@.contains(
            key,
        ) by {
            assert(earlier[k] == inputs[k]);
        }
        law_released_as_pressed(held, earlier, key);
    }
}

/// Input that changes nothing asks for nothing.
pub proof fn law_same_input_does_nothing(
    held: Held,
    input: Input,
    ignored: Set<Key>,
    actions: Seq<InputAction>,
)
    requires
        input.keys_pressed@ == held.keys,
        input.left_mouse_pressed == held.left,
        input.middle_mouse_pressed == held.middle,
        input.right_mouse_pressed == held.right,
        follows(actions, held, input, ignored),
    ensures
        actions.len() == 0,
        held.after(input, ignored) == held,
{
    let keys = input.keys_pressed@;
    let (released, pressed) = choose|released: Seq<Key>, pressed: Seq<Key>|
        {
            &&& #[trigger] lists(released, held.released(keys))
            &&& #[trigger] lists(pressed, held.pressed(keys, ignored))
            &&& actions == released.map_values(|key: Key| release_action(key, held.upper))
                + pressed.map_values(|key: Key| press_action(key, keys.contains(Key::Shift)))
                + button_actions(held, input)
        };
    assert(held.released(keys) =~= Set::<Key>::empty());
    assert(held.pressed(keys, ignored) =~= Set::<Key>::empty());
    if released.len() > 0 {
        assert(released.to_set().contains(released[0]));
    }
    if pressed.len() > 0 {
        assert(pressed.to_set().contains(pressed[0]));
    }
    assert(held.after(input, ignored) =~= held);
}

/// What is held down on the virtual keyboard and mouse.
#[verifier::ext_equal]
pub struct Devices {
    pub keys: Set<Key>,
    pub left: bool,
    pub middle: bool,
    pub right: bool,
}

impl Devices {
    /// What is held down after one thing has been done.
    pub open spec fn after(self, action: InputAction) -> Devices {
        match action {
            InputAction::Key { key, direction, .. } => Devices {
                keys: if direction is Press {
                    self.keys.insert(key)
                } else {
                    self.keys.remove(key)
                },
                ..self
            },
            InputAction::Button { button, direction } => match button {
                Button::Left => Devices { left: direction is Press, ..self },
                Button::Middle => Devices { middle: direction is Press, ..self },
                Button::Right => Devices { right: direction is Press, ..self },
            },
        }
    }

    /// What is held down after several things have been done.
    pub open spec fn after_all(self, actions: Seq<InputAction>) -> Devices
        decreases actions.len(),
    {
        if actions.len() == 0 {
            self
        } else {
            self.after_all(actions.drop_last()).after(actions.last())
        }
    }
}

/// Doing things one list after the other.
proof fn lemma_after_concat(devices: Devices, a: Seq<InputAction>, b: Seq<InputAction>)
    ensures
        devices.after_all(a + b) == devices.after_all(a).after_all(b),
    decreases b.len(),
{
    if b.len() == 0 {
        assert(a + b =~= a);
    } else {
        lemma_after_concat(devices, a, b.drop_last());
        assert((a + b).drop_last() =~= a + b.drop_last());
        assert((a + b).last() == b.last());
    }
}

/// Letting go of several keys.
proof fn lemma_after_releases(devices: Devices, keys: Seq<Key>, upper: Set<Key>)
    ensures
        devices.after_all(keys.map_values(|key: Key| release_action(key, upper))) == (Devices {
            keys: devices.keys.difference(keys.to_set()),
            ..devices
        }),
    decreases keys.len(),
{
    let actions = keys.map_values(|key: Key| release_action(key, upper));
    if keys.len() == 0 {
        assert(devices.keys.difference(keys.to_set()) =~= devices.keys);
    } else {
        let earlier = keys.drop_last();
        lemma_after_releases(devices, earlier, upper);
        assert(actions.drop_last() =~= earlier.map_values(|key: Key| release_action(key, upper)));
        assert(keys =~= earlier.push(keys.last()));
        lemma_to_set_push(earlier, keys.last());
        assert(devices.keys.difference(earlier.to_set()).remove(keys.last())
            =~= devices.keys.difference(keys.to_set()));
    }
}

/// Pressing several keys.
proof fn lemma_after_presses(devices: Devices, keys: Seq<Key>, shift: bool)
    ensures
        devices.after_all(keys.map_values(|key: Key| press_action(key, shift))) == (Devices {
            keys: devices.keys.union(keys.to_set()),
            ..devices
        }),
    decreases keys.len(),
{
    let actions = keys.map_values(|key: Key| press_action(key, shift));
    if keys.len() == 0 {
        assert(devices.keys.union(keys.to_set()) =~= devices.keys);
    } else {
        let earlier = keys.drop_last();
        lemma_after_presses(devices, earlier, shift);
        assert(actions.drop_last() =~= earlier.map_values(|key: Key| press_action(key, shift)));
        assert(keys =~= earlier.push(keys.last()));
        lemma_to_set_push(earlier, keys.last());
        assert(devices.keys.union(earlier.to_set()).insert(keys.last()) =~= devices.keys.union(
            keys.to_set(),
        ));
    }
}

/// Moving one mouse button.
proof fn lemma_after_button(devices: Devices, button: Button, before: bool, now: bool)
    requires
        before == match button {
            Button::Left => devices.left,
            Button::Middle => devices.middle,
            Button::Right => devices.right,
        },
    ensures
        devices.after_all(button_action(button, before, now)) == match button {
            Button::Left => Devices { left: now, ..devices },
            Button::Middle => Devices { middle: now, ..devices },
            Button::Right => Devices { right: now, ..devices },
        },
{
    let actions = button_action(button, before, now);
    if before != now {
        assert(actions.drop_last() =~= Seq::<InputAction>::empty());
        assert(devices.after_all(actions.drop_last()) == devices);
    }
}

/// The virtual keyboard and mouse follow the other side's: if they hold what was remembered, then,
/// once everything has been done that the input asks for, the mouse holds what the input holds, and
/// the keyboard holds the keys that the input holds, but for those that were to be ignored and were
/// not held before. What is remembered then is the input.
pub proof fn law_devices_follow_input(
    held: Held,
    input: Input,
    ignored: Set<Key>,
    actions: Seq<InputAction>,
)
    requires
        follows(actions, held, input, ignored),
    ensures
        ({
            let devices = Devices {
                keys: held.keys,
                left: held.left,
                middle: held.middle,
                right: held.right,
            };
            let after = devices.after_all(actions);
            &&& after.left == input.left_mouse_pressed
            &&& after.middle == input.middle_mouse_pressed
            &&& after.right == input.right_mouse_pressed
            &&& forall|key: Key| #[trigger]
                after.keys.contains(key) <==> input.keys_pressed@.contains(key) && (
                held.keys.contains(key) || !ignored.contains(key))
            &&& input.keys_pressed@.disjoint(ignored) ==> after.keys == input.keys_pressed@
        }),
        held.after(input, ignored).keys == input.keys_pressed@,
        held.after(input, ignored).left == input.left_mouse_pressed,
        held.after(input, ignored).middle == input.middle_mouse_pressed,
        held.after(input, ignored).right == input.right_mouse_pressed,
{
    let devices = Devices {
        keys: held.keys,
        left: held.left,
        middle: held.middle,
        right: held.right,
    };
    let keys = input.keys_pressed@;
    let shift = keys.contains(Key::Shift);
    let (released, pressed) = choose|released: Seq<Key>, pressed: Seq<Key>|
        {
            &&& #[trigger] lists(released, held.released(keys))
            &&& #[trigger] lists(pressed, held.pressed(keys, ignored))
            &&& actions == released.map_values(|key: Key| release_action(key, held.upper))
                + pressed.map_values(|key: Key| press_action(key, keys.contains(Key::Shift)))
                + button_actions(held, input)
        };
    let releases = released.map_values(|key: Key| release_action(key, held.upper));
    let presses = pressed.map_values(|key: Key| press_action(key, shift));
    let left = button_action(Button::Left, held.left, input.left_mouse_pressed);
    let middle = button_action(Button::Middle, held.middle, input.middle_mouse_pressed);
    let right = button_action(Button::Right, held.right, input.right_mouse_pressed);
    assert(presses =~= pressed.map_values(
        |key: Key| press_action(key, keys.contains(Key::Shift)),
    ));
    lemma_after_concat(devices, releases + presses, button_actions(held, input));
    lemma_after_concat(devices, releases, presses);
    lemma_after_releases(devices, released, held.upper);
    let d1 = devices.after_all(releases);
    lemma_after_presses(d1, pressed, shift);
    let d2 = d1.after_all(presses);
    assert(input.keys_pressed@.disjoint(ignored) ==> held.keys.difference(
        held.released(keys),
    ).union(held.pressed(keys, ignored)) =~= keys);
    lemma_after_concat(d2, left + middle, right);
    lemma_after_concat(d2, left, middle);
    lemma_after_button(d2, Button::Left, held.left, input.left_mouse_pressed);
    let d3 = d2.after_all(left);
    lemma_after_button(d3, Button::Middle, held.middle, input.middle_mouse_pressed);
    let d4 = d3.after_all(middle);
    lemma_after_button(d4, Button::Right, held.right, input.right_mouse_pressed);
}

/// What the actions are that an input asks for. A key is let go only if it was held and is no
/// longer, in the case in which it is remembered; a key is pressed only if it was not held, is now,
/// and is not to be ignored, in upper case exactly if the shift key is held; a button moves only if
/// it is not as it was, to where it is now. Keys are let go before any is pressed, keys move before
/// buttons do, and nothing is done twice.
pub proof fn law_actions(
    held: Held,
    input: Input,
    ignored: Set<Key>,
    actions: Seq<InputAction>,
    i: int,
    j: int,
)
    requires
        follows(actions, held, input, ignored),
        0 <= i < actions.len(),
        0 <= j < actions.len(),
    ensures
        actions[i] matches InputAction::Key { key, upper, direction } ==> match direction {
            Direction::Release => {
                &&& held.keys.contains(key)
                &&& !input.keys_pressed@.contains(key)
                &&& upper == held.upper.contains(key)
            },
            Direction::Press => {
                &&& !held.keys.contains(key)
                &&& input.keys_pressed@.contains(key)
                &&& !ignored.contains(key)
                &&& upper == input.keys_pressed@.contains(Key::Shift)
            },
        },
        actions[i] matches InputAction::Button { button, direction } ==> {
            let (before, now) = match button {
                Button::Left => (held.left, input.left_mouse_pressed),
                Button::Middle => (held.middle, input.middle_mouse_pressed),
                Button::Right => (held.right, input.right_mouse_pressed),
            };
            before != now && (direction is Press <==> now)
        },
        actions[i] is Key && actions[j] is Button ==> i < j,
        actions[i] is Key && actions[j] is Key && actions[i]->Key_direction is Release
            && actions[j]->Key_direction is Press ==> i < j,
        i != j ==> actions[i] != actions[j],
{
    let keys = input.keys_pressed@;
    let shift = keys.contains(Key::Shift);
    let (released, pressed) = choose|released: Seq<Key>, pressed: Seq<Key>|
        {
            &&& #[trigger] lists(released, held.released(keys))
            &&& #[trigger] lists(pressed, held.pressed(keys, ignored))
            &&& actions == released.map_values(|key: Key| release_action(key, held.upper))
                + pressed.map_values(|key: Key| press_action(key, keys.contains(Key::Shift)))
                + button_actions(held, input)
        };
    let n = released.len() as int;
    let m = pressed.len() as int;
    assert forall|k: int| 0 <= k < n implies actions[k] == release_action(released[k], held.upper)
        && held.released(keys).contains(#[trigger] released[k]) by {
        assert(released.to_set().contains(released[k]));
    }
    assert forall|k: int| 0 <= k < m implies actions[n + k] == press_action(pressed[k], shift)
        && held.pressed(keys, ignored).contains(#[trigger] pressed[k]) by {
        assert(pressed.to_set().contains(pressed[k]));
    }
    let buttons = button_actions(held, input);
    assert forall|k: int| n + m <= k < actions.len() implies #[trigger] actions[k] == buttons[k - n
        - m] by {}
    lemma_buttons(held, input);
    if i < n {
        assert(held.released(keys).contains(released[i]));
    } else if i < n + m {
        assert(held.pressed(keys, ignored).contains(pressed[i - n]));
    }
    if j < n {
        assert(held.released(keys).contains(released[j]));
    } else if j < n + m {
        assert(held.pressed(keys, ignored).contains(pressed[j - n]));
    }
}

/// Whatever an input changes is done: every key that is no longer held is let go, every key that is
/// newly held and not to be ignored is pressed, and every button that is not as it was moves.
pub proof fn law_changes_are_done(
    held: Held,
    input: Input,
    ignored: Set<Key>,
    actions: Seq<InputAction>,
    key: Key,
)
    requires
        follows(actions, held, input, ignored),
    ensures
        held.keys.contains(key) && !input.keys_pressed@.contains(key) ==> actions.contains(
            InputAction::Key {
                key,
                upper: held.upper.contains(key),
                direction: Direction::Release,
            },
        ),
        !held.keys.contains(key) && input.keys_pressed@.contains(key) && !ignored.contains(key)
            ==> actions.contains(
            InputAction::Key {
                key,
                upper: input.keys_pressed@.contains(Key::Shift),
                direction: Direction::Press,
            },
        ),
        held.left && !input.left_mouse_pressed ==> actions.contains(
            InputAction::Button { button: Button::Left, direction: Direction::Release },
        ),
        !held.left && input.left_mouse_pressed ==> actions.contains(
            InputAction::Button { button: Button::Left, direction: Direction::Press },
        ),
        held.middle && !input.middle_mouse_pressed ==> actions.contains(
            InputAction::Button { button: Button::Middle, direction: Direction::Release },
        ),
        !held.middle && input.middle_mouse_pressed ==> actions.contains(
            InputAction::Button { button: Button::Middle, direction: Direction::Press },
        ),
        held.right && !input.right_mouse_pressed ==> actions.contains(
            InputAction::Button { button: Button::Right, direction: Direction::Release },
        ),
        !held.right && input.right_mouse_pressed ==> actions.contains(
            InputAction::Button { button: Button::Right, direction: Direction::Press },
        ),
{
    let keys = input.keys_pressed@;
    let (released, pressed) = choose|released: Seq<Key>, pressed: Seq<Key>|
        {
            &&& #[trigger] lists(released, held.released(keys))
            &&& #[trigger] lists(pressed, held.pressed(keys, ignored))
            &&& actions == released.map_values(|key: Key| release_action(key, held.upper))
                + pressed.map_values(|key: Key| press_action(key, keys.contains(Key::Shift)))
                + button_actions(held, input)
        };
    let n = released.len() as int;
    let m = pressed.len() as int;
    if held.keys.contains(key) && !keys.contains(key) {
        assert(released.to_set().contains(key));
        let k = choose|k: int| 0 <= k < n && released[k] == key;
        assert(actions[k] == release_action(key, held.upper));
    }
    if !held.keys.contains(key) && keys.contains(key) && !ignored.contains(key) {
        assert(pressed.to_set().contains(key));
        let k = choose|k: int| 0 <= k < m && pressed[k] == key;
        assert(actions[n + k] == press_action(key, keys.contains(Key::Shift)));
    }
    let left = button_action(Button::Left, held.left, input.left_mouse_pressed);
    let middle = button_action(Button::Middle, held.middle, input.middle_mouse_pressed);
    let right = button_action(Button::Right, held.right, input.right_mouse_pressed);
    if left.len() > 0 {
        assert(actions[n + m] == left[0]);
    }
    if middle.len() > 0 {
        assert(actions[n + m + left.len()] == middle[0]);
    }
    if right.len() > 0 {
        assert(actions[n + m + left.len() + middle.len()] == right[0]);
    }
}

/// What the mouse buttons do.
proof fn lemma_buttons(held: Held, input: Input)
    ensures
        ({
            let buttons = button_actions(held, input);
            &&& forall|k: int|
                0 <= k < buttons.len() ==> (#[trigger] buttons[k] matches InputAction::Button {
                    button,
                    direction,
                } && {
                    let (before, now) = match button {
                        Button::Left => (held.left, input.left_mouse_pressed),
                        Button::Middle => (held.middle, input.middle_mouse_pressed),
                        Button::Right => (held.right, input.right_mouse_pressed),
                    };
                    before != now && (direction is Press <==> now)
                })
            &&& forall|k: int, l: int|
                0 <= k < l < buttons.len() ==> #[trigger] buttons[k] != #[trigger] buttons[l]
        }),
{
}

/// Letters become upper case, which lies 32 below them in ASCII, and nothing else changes.
pub proof fn law_upper_case(c: char)
    ensures
        'a' <= c <= 'z' ==> ascii_upper(c) as u32 + 32 == c as u32,
        !('a' <= c <= 'z') ==> ascii_upper(c) == c,
        ascii_upper(ascii_upper(c)) == ascii_upper(c),
{
}

/// What goes down is pressed, and what goes up is released.
pub proof fn law_direction(pressed: bool)
    ensures
        direction_of(pressed) is Press <==> pressed,
{
}

/// Which keys count as pressed in upper case: those that did and are still held, and those that are
/// pressed now while the shift key is held.
pub proof fn law_upper_keys(held: Held, input: Input, ignored: Set<Key>, key: Key)
    requires
        held.valid(),
    ensures
        held.after(input, ignored).upper.contains(key) <==> input.keys_pressed@.contains(key) && (
        held.upper.contains(key) || (!held.keys.contains(key) && !ignored.contains(key)
            && input.keys_pressed@.contains(Key::Shift))),
{
}

} // verus!
