use std::collections::HashMap;
use vstd::prelude::*;

verus! {

broadcast use vstd::std_specs::hash::group_hash_axioms;

/// Whether a button went down this frame, and whether it is held down.
#[derive(Copy, Clone, Debug, PartialEq, Eq, Structural)]
pub struct ButtonState {
    pub pressed: bool,
    pub down: bool,
}

/// A question that can be asked of a button.
#[derive(Copy, Clone, Debug, PartialEq, Eq, Structural)]
pub enum ButtonStatus {
    Down,
    Up,
    Pressed,
    Released,
}

/// Whether a button event is a press or a release.
#[derive(Copy, Clone, Debug, PartialEq, Eq, Structural)]
pub enum ElementState {
    Pressed,
    Released,
}

/// A mouse button.
#[derive(Copy, Clone, Debug, PartialEq, Eq, Structural)]
pub enum MouseButton {
    Left,
    Right,
    Middle,
    Other(u16),
}

/// The answer that a button in state `b` gives to `status`.
pub open spec fn status_of(b: ButtonState, status: ButtonStatus) -> bool {
    match status {
        ButtonStatus::Down => b.down,
        ButtonStatus::Up => !b.down,
        ButtonStatus::Pressed => b.pressed,
        ButtonStatus::Released => !b.pressed,
    }
}

/// A button after an event: a press marks it down, and pressed unless it was
/// already down; a release clears both.
pub open spec fn after_event(b: ButtonState, state: ElementState) -> ButtonState {
    match state {
        ElementState::Pressed => ButtonState { pressed: b.pressed || !b.down, down: true },
        ElementState::Released => ButtonState { pressed: false, down: false },
    }
}

/// A button only counts as pressed while it is down, whatever events it gets.
pub proof fn lemma_pressed_only_while_down(b: ButtonState, state: ElementState)
    requires
        b.pressed ==> b.down,
    ensures
        after_event(b, state).pressed ==> after_event(b, state).down,
{
}

/// Pressing a button that is already down changes nothing: a held key is
/// pressed only on the event that put it down.
pub proof fn lemma_press_when_down(b: ButtonState)
    requires
        b.down,
    ensures
        after_event(b, ElementState::Pressed) == b,
{
}

/// A release always leaves the button up and not pressed.
pub proof fn lemma_release_resets(b: ButtonState)
    ensures
        after_event(b, ElementState::Released) == ButtonState::new_spec(),
{
}

/// The four questions pair up: a button is up exactly when it is not down,
/// and released exactly when it was not pressed this frame; down asks the
/// button's `down` flag and pressed its `pressed` flag.
pub proof fn lemma_statuses_pair_up(b: ButtonState)
    ensures
        status_of(b, ButtonStatus::Down) == b.down,
        status_of(b, ButtonStatus::Pressed) == b.pressed,
        status_of(b, ButtonStatus::Up) == !status_of(b, ButtonStatus::Down),
        status_of(b, ButtonStatus::Released) == !status_of(b, ButtonStatus::Pressed),
{
}

/// A key held since an earlier frame is down, not up, and not pressed: the
/// frame of its press has passed, and it is still held.
pub proof fn lemma_held_key_is_not_up(b: ButtonState)
    requires
        b.pressed ==> b.down,
    ensures
        status_of(after_event(b, ElementState::Pressed), ButtonStatus::Down),
        !status_of(after_event(b, ElementState::Pressed), ButtonStatus::Up),
        !status_of(
            ButtonState { pressed: false, ..after_event(b, ElementState::Pressed) },
            ButtonStatus::Up,
        ),
        status_of(
            ButtonState { pressed: false, ..after_event(b, ElementState::Pressed) },
            ButtonStatus::Released,
        ),
{
}

impl ButtonState {
    /// A button that is up.
    pub fn new() -> (b: Self)
        ensures
            b == (ButtonState { pressed: false, down: false }),
    {
        Self { pressed: false, down: false }
    }

    /// The answer this button gives to `status`: `Down` and `Up` ask whether
    /// it is held, `Pressed` and `Released` whether it went down this frame.
    pub fn status(&self, status: ButtonStatus) -> (r: bool)
        ensures
            r == status_of(*self, status),
            status == ButtonStatus::Down ==> r == self.down,
            status == ButtonStatus::Up ==> r == !self.down,
            status == ButtonStatus::Pressed ==> r == self.pressed,
            status == ButtonStatus::Released ==> r == !self.pressed,
    {
        match status {
            ButtonStatus::Down => self.down,
            ButtonStatus::Up => !self.down,
            ButtonStatus::Pressed => self.pressed,
            ButtonStatus::Released => !self.pressed,
        }
    }

    /// Applies a press or a release to this button.
    pub fn update(&mut self, state: ElementState)
        ensures
            *final(self) == after_event(*old(self), state),
    {
        match state {
            ElementState::Pressed => {
                if !self.down {
                    self.pressed = true;
                }
                self.down = true;
            },
            ElementState::Released => {
                self.down = false;
                self.pressed = false;
            },
        }
    }
}

/// The buttons of the mouse.
pub struct MouseState {
    pub left: ButtonState,
    pub right: ButtonState,
    pub middle: ButtonState,
}

impl MouseState {
    /// A mouse with every button up.
    pub fn new() -> (m: Self)
        ensures
            m.left == ButtonState::new_spec(),
            m.right == ButtonState::new_spec(),
            m.middle == ButtonState::new_spec(),
    {
        Self { left: ButtonState::new(), right: ButtonState::new(), middle: ButtonState::new() }
    }

    /// Applies a press or a release of `mouse_button`; other buttons are
    /// ignored.
    pub fn update_from_mouse_button(&mut self, mouse_button: &MouseButton, state: &ElementState)
        ensures
            final(self).left == (if *mouse_button == MouseButton::Left {
                after_event(old(self).left, *state)
            } else {
                old(self).left
            }),
            final(self).right == (if *mouse_button == MouseButton::Right {
                after_event(old(self).right, *state)
            } else {
                old(self).right
            }),
            final(self).middle == (if *mouse_button == MouseButton::Middle {
                after_event(old(self).middle, *state)
            } else {
                old(self).middle
            }),
    {
        match mouse_button {
            MouseButton::Left => self.left.update(*state),
            MouseButton::Right => self.right.update(*state),
            MouseButton::Middle => self.middle.update(*state),
            _ => {},
        }
    }
}

impl ButtonState {
    /// A button that is up.
    pub open spec fn new_spec() -> ButtonState {
        ButtonState { pressed: false, down: false }
    }
}

/// A key, by its key code.
pub type Key = u32;

/// The state of the mouse buttons and of every key seen so far.
pub struct InputState {
    pub mouse: MouseState,
    pub keyboard: HashMap<Key, ButtonState>,
}

/// The answer that `key` gives to `status` in `keyboard`; a key never seen is
/// up and was not pressed, yet answers every question with `false`.
pub open spec fn key_status(keyboard: Map<Key, ButtonState>, key: Key, status: ButtonStatus) -> bool {
    if keyboard.contains_key(key) {
        status_of(keyboard[key], status)
    } else {
        false
    }
}

/// The answer that `button` gives to `status`; other buttons answer `false`.
pub open spec fn mouse_status(mouse: MouseState, button: MouseButton, status: ButtonStatus) -> bool {
    match button {
        MouseButton::Left => status_of(mouse.left, status),
        MouseButton::Right => status_of(mouse.right, status),
        MouseButton::Middle => status_of(mouse.middle, status),
        MouseButton::Other(_) => false,
    }
}

impl InputState {
    /// No key seen yet and every mouse button up.
    pub fn new() -> (s: Self)
        ensures
            s.keyboard@ == Map::<Key, ButtonState>::empty(),
            s.mouse.left == ButtonState::new_spec(),
            s.mouse.right == ButtonState::new_spec(),
            s.mouse.middle == ButtonState::new_spec(),
    {
        Self { mouse: MouseState::new(), keyboard: HashMap::new() }
    }

    /// Returns whether the key is currently down; a key never seen is not.
    /// The answer is the same whatever `status` is passed. (Bindings that
    /// ask a key about a particular status read that status of the key's
    /// button: see `key_status`.)
    pub fn key_state(&self, key: Key, status: ButtonStatus) -> (r: bool)
        ensures
            r == (self.keyboard@.contains_key(key) && self.keyboard@[key].down),
    {
        match self.keyboard.get(&key) {
            Some(state) => state.down,
            None => false,
        }
    }

    /// Whether `key` is held down; a key never seen is not.
    pub fn is_key_down(&self, key: Key) -> (r: bool)
        ensures
            r == (self.keyboard@.contains_key(key) && self.keyboard@[key].down),
    {
        match self.keyboard.get(&key) {
            Some(state) => state.down,
            None => false,
        }
    }

    /// Whether `key` went down this frame; a key never seen did not.
    pub fn is_key_pressed(&self, key: Key) -> (r: bool)
        ensures
            r == (self.keyboard@.contains_key(key) && self.keyboard@[key].pressed),
    {
        match self.keyboard.get(&key) {
            Some(state) => state.pressed,
            None => false,
        }
    }

    /// The answer that `mouse_button` gives to `status`.
    pub fn mouse_button_state(&self, mouse_button: MouseButton, status: ButtonStatus) -> (r: bool)
        ensures
            r == mouse_status(self.mouse, mouse_button, status),
    {
        match mouse_button {
            MouseButton::Left => self.mouse.left.status(status),
            MouseButton::Right => self.mouse.right.status(status),
            MouseButton::Middle => self.mouse.middle.status(status),
            MouseButton::Other(_) => false,
        }
    }

    /// Applies a press or a release of `key`; a key seen for the first time
    /// starts up.
    pub fn update_from_key(&mut self, key: Key, state: ElementState)
        ensures
            final(self).keyboard@ == old(self).keyboard@.insert(
                key,
                after_event(
                    if old(self).keyboard@.contains_key(key) {
                        old(self).keyboard@[key]
                    } else {
                        ButtonState::new_spec()
                    },
                    state,
                ),
            ),
            final(self).mouse == old(self).mouse,
    {
        let mut button = match self.keyboard.get(&key) {
            Some(b) => *b,
            None => ButtonState::new(),
        };
        button.update(state);
        self.keyboard.insert(key, button);
    }

    /// Starts a new frame: no button counts as pressed any more.
    pub fn new_frame(&mut self)
        ensures
            final(self).mouse.left == (ButtonState { pressed: false, ..old(self).mouse.left }),
            final(self).mouse.right == (ButtonState { pressed: false, ..old(self).mouse.right }),
            final(self).mouse.middle == (ButtonState { pressed: false, ..old(self).mouse.middle }),
            final(self).keyboard@.dom() == old(self).keyboard@.dom(),
            forall|k: Key| #[trigger]
                final(self).keyboard@.contains_key(k) ==> final(self).keyboard@[k] == (ButtonState {
                    pressed: false,
                    ..old(self).keyboard@[k]
                }),
    {
        self.mouse.middle.pressed = false;
        self.mouse.left.pressed = false;
        self.mouse.right.pressed = false;
        let mut keyboard: HashMap<Key, ButtonState> = HashMap::new();
        for k in it: self.keyboard.keys()
            invariant
                forall|q: Key| #[trigger]
                    keyboard@.contains_key(q) ==> self.keyboard@.contains_key(q)
                        && keyboard@[q] == (ButtonState { pressed: false, ..self.keyboard@[q] }),
                forall|t: int|
                    0 <= t < it.index() ==> keyboard@.contains_key(*#[trigger] it.seq()[t]),
        {
            let b = *self.keyboard.get(k).unwrap();
            keyboard.insert(*k, ButtonState { pressed: false, down: b.down });
        }
        proof {
            assert forall|q: Key| self.keyboard@.contains_key(q) implies #[trigger]
                keyboard@.contains_key(q) by {
                assert(self.keyboard@.dom().contains(q));
            }
            assert(keyboard@.dom() =~= self.keyboard@.dom());
        }
        self.keyboard = keyboard;
    }
}

} // verus!
