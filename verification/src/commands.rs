use vstd::prelude::*;

use crate::input::{
    key_status, mouse_status, ButtonStatus, InputState, Key, MouseButton,
};

verus! {

/// Key codes of the keys that the default bindings use.
pub const KEY_D: Key = 13;
pub const KEY_E: Key = 14;
pub const KEY_F: Key = 15;
pub const KEY_H: Key = 17;
pub const KEY_L: Key = 21;
pub const KEY_P: Key = 25;
pub const KEY_S: Key = 28;
pub const KEY_F10: Key = 46;
pub const KEY_F11: Key = 47;
pub const KEY_F12: Key = 48;
pub const KEY_LEFT: Key = 70;
pub const KEY_UP: Key = 71;
pub const KEY_RIGHT: Key = 72;
pub const KEY_DOWN: Key = 73;

/// Something the player or developer can ask the game to do.
#[derive(Copy, Clone, Debug, PartialEq, Eq, Structural, Hash)]
pub enum Command {
    DebugToggleInfo,
    DebugToggleLogic,
    DebugStepLogic,
    DebugToggleSnake,
    SnakeMoveUp,
    SnakeMoveDown,
    SnakeMoveLeft,
    SnakeMoveRight,
    DevToggleHotLoading,
    DevHotLoadModels,
    PlayerCameraMoveUp,
    PlayerCameraMoveDown,
    PlayerCameraMoveLeft,
    PlayerCameraMoveRight,
    PlayerClickToMove,
    PlayerOrbitCamera,
}

/// The number of commands.
pub const COMMAND_COUNT: usize = 16;

/// The position of a command in declaration order.
pub open spec fn command_slot(c: Command) -> int {
    match c {
        Command::DebugToggleInfo => 0,
        Command::DebugToggleLogic => 1,
        Command::DebugStepLogic => 2,
        Command::DebugToggleSnake => 3,
        Command::SnakeMoveUp => 4,
        Command::SnakeMoveDown => 5,
        Command::SnakeMoveLeft => 6,
        Command::SnakeMoveRight => 7,
        Command::DevToggleHotLoading => 8,
        Command::DevHotLoadModels => 9,
        Command::PlayerCameraMoveUp => 10,
        Command::PlayerCameraMoveDown => 11,
        Command::PlayerCameraMoveLeft => 12,
        Command::PlayerCameraMoveRight => 13,
        Command::PlayerClickToMove => 14,
        Command::PlayerOrbitCamera => 15,
    }
}

fn slot_of(c: Command) -> (i: usize)
    ensures
        i == command_slot(c),
        i < COMMAND_COUNT,
{
    match c {
        Command::DebugToggleInfo => 0,
        Command::DebugToggleLogic => 1,
        Command::DebugStepLogic => 2,
        Command::DebugToggleSnake => 3,
        Command::SnakeMoveUp => 4,
        Command::SnakeMoveDown => 5,
        Command::SnakeMoveLeft => 6,
        Command::SnakeMoveRight => 7,
        Command::DevToggleHotLoading => 8,
        Command::DevHotLoadModels => 9,
        Command::PlayerCameraMoveUp => 10,
        Command::PlayerCameraMoveDown => 11,
        Command::PlayerCameraMoveLeft => 12,
        Command::PlayerCameraMoveRight => 13,
        Command::PlayerClickToMove => 14,
        Command::PlayerOrbitCamera => 15,
    }
}

/// How a command follows the input.
#[derive(Copy, Clone, Debug, PartialEq, Eq, Structural)]
pub enum KeyBinding {
    /// Active while the key answers the question.
    Key(Key, ButtonStatus),
    /// Flips whenever the key answers the question.
    KeyToggle(Key, ButtonStatus),
    /// Active while the mouse button answers the question.
    Mouse(MouseButton, ButtonStatus),
}

/// A bound command: how it follows the input, and whether it is active.
#[derive(Copy, Clone, Debug, PartialEq, Eq, Structural)]
pub struct CommandState {
    pub logic: KeyBinding,
    pub state: bool,
}

/// Whether a command bound by `logic` is active after reading `input`, when
/// it was `prev` before.
pub open spec fn next_state(logic: KeyBinding, input: InputState, prev: bool) -> bool {
    match logic {
        KeyBinding::Key(key, status) => key_status(input.keyboard@, key, status),
        KeyBinding::KeyToggle(key, status) => key_status(input.keyboard@, key, status) != prev,
        KeyBinding::Mouse(button, status) => mouse_status(input.mouse, button, status),
    }
}

/// A toggle read twice with the same input comes back to where it was when
/// the key answers the question, and stays put when it does not.
pub proof fn lemma_toggle_twice(key: Key, status: ButtonStatus, input: InputState, prev: bool)
    ensures
        next_state(
            KeyBinding::KeyToggle(key, status),
            input,
            next_state(KeyBinding::KeyToggle(key, status), input, prev),
        ) == prev,
        !key_status(input.keyboard@, key, status) ==> next_state(
            KeyBinding::KeyToggle(key, status),
            input,
            prev,
        ) == prev,
{
}

impl CommandState {
    /// A binding that starts inactive.
    pub fn new(logic: KeyBinding) -> (s: Self)
        ensures
            s == (CommandState { logic, state: false }),
    {
        Self { logic, state: false }
    }

    /// Reads the input.
    pub fn update(&mut self, input_state: &InputState)
        ensures
            *final(self) == (CommandState {
                logic: old(self).logic,
                state: next_state(old(self).logic, *input_state, old(self).state),
            }),
    {
        self.state = match self.logic {
            KeyBinding::Key(key, status) => match input_state.keyboard.get(&key) {
                Some(b) => b.status(status),
                None => false,
            },
            KeyBinding::KeyToggle(key, status) => {
                let asked = match input_state.keyboard.get(&key) {
                    Some(b) => b.status(status),
                    None => false,
                };
                asked ^ self.state
            },
            KeyBinding::Mouse(button, status) => input_state.mouse_button_state(button, status),
        };
    }
}

/// The commands that are bound, and how.
pub struct CommandManager {
    commands: [Option<CommandState>; 16],
}

/// The bindings that `default_bindings` sets up.
pub open spec fn default_binding(c: Command) -> CommandState {
    match c {
        Command::DebugToggleInfo => CommandState {
            logic: KeyBinding::KeyToggle(KEY_F12, ButtonStatus::Pressed),
            state: true,
        },
        Command::DebugStepLogic => CommandState {
            logic: KeyBinding::Key(KEY_F10, ButtonStatus::Pressed),
            state: false,
        },
        Command::DebugToggleLogic => CommandState {
            logic: KeyBinding::KeyToggle(KEY_F11, ButtonStatus::Pressed),
            state: true,
        },
        Command::DevToggleHotLoading => CommandState {
            logic: KeyBinding::KeyToggle(KEY_H, ButtonStatus::Pressed),
            state: false,
        },
        Command::DevHotLoadModels => CommandState {
            logic: KeyBinding::Key(KEY_L, ButtonStatus::Pressed),
            state: false,
        },
        Command::PlayerCameraMoveUp => CommandState {
            logic: KeyBinding::Key(KEY_E, ButtonStatus::Pressed),
            state: false,
        },
        Command::PlayerCameraMoveDown => CommandState {
            logic: KeyBinding::Key(KEY_D, ButtonStatus::Pressed),
            state: false,
        },
        Command::PlayerCameraMoveLeft => CommandState {
            logic: KeyBinding::Key(KEY_S, ButtonStatus::Pressed),
            state: false,
        },
        Command::PlayerCameraMoveRight => CommandState {
            logic: KeyBinding::Key(KEY_F, ButtonStatus::Pressed),
            state: false,
        },
        Command::PlayerClickToMove => CommandState {
            logic: KeyBinding::Mouse(MouseButton::Left, ButtonStatus::Pressed),
            state: false,
        },
        Command::PlayerOrbitCamera => CommandState {
            logic: KeyBinding::Mouse(MouseButton::Right, ButtonStatus::Down),
            state: false,
        },
        Command::DebugToggleSnake => CommandState {
            logic: KeyBinding::KeyToggle(KEY_P, ButtonStatus::Pressed),
            state: false,
        },
        Command::SnakeMoveUp => CommandState {
            logic: KeyBinding::Key(KEY_UP, ButtonStatus::Pressed),
            state: false,
        },
        Command::SnakeMoveDown => CommandState {
            logic: KeyBinding::Key(KEY_DOWN, ButtonStatus::Pressed),
            state: false,
        },
        Command::SnakeMoveLeft => CommandState {
            logic: KeyBinding::Key(KEY_LEFT, ButtonStatus::Pressed),
            state: false,
        },
        Command::SnakeMoveRight => CommandState {
            logic: KeyBinding::Key(KEY_RIGHT, ButtonStatus::Pressed),
            state: false,
        },
    }
}

/// Whether `key` went down this frame in `input`.
pub open spec fn key_went_down(input: InputState, key: Key) -> bool {
    input.keyboard@.contains_key(key) && input.keyboard@[key].pressed
}

/// With the default bindings, each camera and snake command is on exactly on
/// the frames in which its own key went down: E moves the camera up, D down,
/// S left, F right; the arrow keys steer the snake the way they point; F10
/// steps the logic and L reloads the models. And the toggles flip on F12, F11,
/// H and P.
pub proof fn lemma_default_keys_drive_commands(input: InputState, prev: bool)
    ensures
        next_state(default_binding(Command::PlayerCameraMoveUp).logic, input, prev)
            == key_went_down(input, KEY_E),
        next_state(default_binding(Command::PlayerCameraMoveDown).logic, input, prev)
            == key_went_down(input, KEY_D),
        next_state(default_binding(Command::PlayerCameraMoveLeft).logic, input, prev)
            == key_went_down(input, KEY_S),
        next_state(default_binding(Command::PlayerCameraMoveRight).logic, input, prev)
            == key_went_down(input, KEY_F),
        next_state(default_binding(Command::SnakeMoveUp).logic, input, prev) == key_went_down(
            input,
            KEY_UP,
        ),
        next_state(default_binding(Command::SnakeMoveDown).logic, input, prev) == key_went_down(
            input,
            KEY_DOWN,
        ),
        next_state(default_binding(Command::SnakeMoveLeft).logic, input, prev) == key_went_down(
            input,
            KEY_LEFT,
        ),
        next_state(default_binding(Command::SnakeMoveRight).logic, input, prev) == key_went_down(
            input,
            KEY_RIGHT,
        ),
        next_state(default_binding(Command::DebugStepLogic).logic, input, prev) == key_went_down(
            input,
            KEY_F10,
        ),
        next_state(default_binding(Command::DevHotLoadModels).logic, input, prev)
            == key_went_down(input, KEY_L),
        next_state(default_binding(Command::DebugToggleInfo).logic, input, prev) == (prev
            != key_went_down(input, KEY_F12)),
        next_state(default_binding(Command::DebugToggleLogic).logic, input, prev) == (prev
            != key_went_down(input, KEY_F11)),
        next_state(default_binding(Command::DevToggleHotLoading).logic, input, prev) == (prev
            != key_went_down(input, KEY_H)),
        next_state(default_binding(Command::DebugToggleSnake).logic, input, prev) == (prev
            != key_went_down(input, KEY_P)),
        next_state(default_binding(Command::PlayerClickToMove).logic, input, prev)
            == input.mouse.left.pressed,
        next_state(default_binding(Command::PlayerOrbitCamera).logic, input, prev)
            == input.mouse.right.down,
{
}

impl CommandManager {
    /// The bound commands and their states.
    pub closed spec fn bindings(&self) -> Map<Command, CommandState> {
        Map::new(
            |c: Command| self.commands@[command_slot(c)] is Some,
            |c: Command| self.commands@[command_slot(c)]->Some_0,
        )
    }

    /// No command bound.
    pub fn new() -> (m: Self)
        ensures
            m.bindings() == Map::<Command, CommandState>::empty(),
    {
        let commands: [Option<CommandState>; 16] = [None; 16];
        let m = Self { commands };
        assert(m.bindings() =~= Map::<Command, CommandState>::empty());
        m
    }

    fn bind(&mut self, command: Command, state: CommandState)
        ensures
            final(self).bindings() == old(self).bindings().insert(command, state),
    {
        let i = slot_of(command);
        self.commands[i] = Some(state);
        proof {
            assert forall|c: Command| #[trigger] command_slot(c) == command_slot(command) implies c
                == command by {}
            assert(self.bindings() =~= old(self).bindings().insert(command, state));
        }
    }

    /// Whether `command` is active; an unbound command is not.
    pub fn get(&self, command: Command) -> (r: bool)
        ensures
            r == (self.bindings().contains_key(command) && self.bindings()[command].state),
    {
        match self.commands[slot_of(command)] {
            Some(command_state) => command_state.state,
            None => false,
        }
    }

    /// Binds `command` to be active while `key` answers `button_status`.
    pub fn simple_key_bind(&mut self, command: Command, key: Key, button_status: ButtonStatus)
        ensures
            final(self).bindings() == old(self).bindings().insert(
                command,
                CommandState { logic: KeyBinding::Key(key, button_status), state: false },
            ),
    {
        self.bind(command, CommandState::new(KeyBinding::Key(key, button_status)));
    }

    /// Binds `command` to flip whenever `key` answers `button_status`,
    /// starting as `default`.
    pub fn key_toggle(
        &mut self,
        command: Command,
        key: Key,
        button_status: ButtonStatus,
        default: bool,
    )
        ensures
            final(self).bindings() == old(self).bindings().insert(
                command,
                CommandState { logic: KeyBinding::KeyToggle(key, button_status), state: default },
            ),
    {
        let mut state = CommandState::new(KeyBinding::KeyToggle(key, button_status));
        state.state = default;
        self.bind(command, state);
    }

    /// Binds `command` to be active while `mouse_button` answers `button_status`.
    pub fn simple_mouse_bind(
        &mut self,
        command: Command,
        mouse_button: MouseButton,
        button_status: ButtonStatus,
    )
        ensures
            final(self).bindings() == old(self).bindings().insert(
                command,
                CommandState { logic: KeyBinding::Mouse(mouse_button, button_status), state: false },
            ),
    {
        self.bind(command, CommandState::new(KeyBinding::Mouse(mouse_button, button_status)));
    }

    /// Binds `command` to follow `logic`, starting inactive.
    pub fn advanced_bind(&mut self, command: Command, logic: KeyBinding)
        ensures
            final(self).bindings() == old(self).bindings().insert(
                command,
                CommandState { logic, state: false },
            ),
    {
        self.bind(command, CommandState::new(logic));
    }

    /// Whether `command` is bound.
    pub fn has_binding(&self, command: Command) -> (r: bool)
        ensures
            r == self.bindings().contains_key(command),
    {
        self.commands[slot_of(command)].is_some()
    }

    /// Reads the input into every bound command.
    pub fn update(&mut self, input_state: &InputState)
        ensures
            final(self).bindings().dom() == old(self).bindings().dom(),
            forall|c: Command| #[trigger]
                final(self).bindings().contains_key(c) ==> final(self).bindings()[c] == (
                CommandState {
                    logic: old(self).bindings()[c].logic,
                    state: next_state(
                        old(self).bindings()[c].logic,
                        *input_state,
                        old(self).bindings()[c].state,
                    ),
                }),
    {
        let ghost before = self.commands@;
        let mut i: usize = 0;
        while i < COMMAND_COUNT
            invariant
                i <= COMMAND_COUNT,
                self.commands@.len() == COMMAND_COUNT,
                before.len() == COMMAND_COUNT,
                forall|t: int|
                    0 <= t < COMMAND_COUNT ==> (#[trigger] self.commands@[t] is Some) == (
                    before[t] is Some),
                forall|t: int|
                    i <= t < COMMAND_COUNT ==> #[trigger] self.commands@[t] == before[t],
                forall|t: int|
                    0 <= t < i && #[trigger] self.commands@[t] is Some ==> self.commands@[t]->Some_0
                        == (CommandState {
                        logic: before[t]->Some_0.logic,
                        state: next_state(
                            before[t]->Some_0.logic,
                            *input_state,
                            before[t]->Some_0.state,
                        ),
                    }),
            decreases COMMAND_COUNT - i,
        {
            if let Some(mut command_state) = self.commands[i] {
                command_state.update(input_state);
                self.commands[i] = Some(command_state);
            }
            i = i + 1;
        }
        proof {
            assert(self.bindings().dom() =~= old(self).bindings().dom());
        }
    }

    /// The development key bindings.
    pub fn default_bindings() -> (m: Self)
        ensures
            forall|c: Command| #[trigger] m.bindings().contains_key(c),
            forall|c: Command| #[trigger] m.bindings()[c] == default_binding(c),
            m.bindings()[Command::DebugToggleInfo] == (CommandState {
                logic: KeyBinding::KeyToggle(KEY_F12, ButtonStatus::Pressed),
                state: true,
            }),
            m.bindings()[Command::DebugStepLogic] == (CommandState {
                logic: KeyBinding::Key(KEY_F10, ButtonStatus::Pressed),
                state: false,
            }),
            m.bindings()[Command::DebugToggleLogic] == (CommandState {
                logic: KeyBinding::KeyToggle(KEY_F11, ButtonStatus::Pressed),
                state: true,
            }),
            m.bindings()[Command::DevToggleHotLoading] == (CommandState {
                logic: KeyBinding::KeyToggle(KEY_H, ButtonStatus::Pressed),
                state: false,
            }),
            m.bindings()[Command::DevHotLoadModels] == (CommandState {
                logic: KeyBinding::Key(KEY_L, ButtonStatus::Pressed),
                state: false,
            }),
            m.bindings()[Command::PlayerCameraMoveUp] == (CommandState {
                logic: KeyBinding::Key(KEY_E, ButtonStatus::Pressed),
                state: false,
            }),
            m.bindings()[Command::PlayerCameraMoveDown] == (CommandState {
                logic: KeyBinding::Key(KEY_D, ButtonStatus::Pressed),
                state: false,
            }),
            m.bindings()[Command::PlayerCameraMoveLeft] == (CommandState {
                logic: KeyBinding::Key(KEY_S, ButtonStatus::Pressed),
                state: false,
            }),
            m.bindings()[Command::PlayerCameraMoveRight] == (CommandState {
                logic: KeyBinding::Key(KEY_F, ButtonStatus::Pressed),
                state: false,
            }),
            m.bindings()[Command::PlayerClickToMove] == (CommandState {
                logic: KeyBinding::Mouse(MouseButton::Left, ButtonStatus::Pressed),
                state: false,
            }),
            m.bindings()[Command::PlayerOrbitCamera] == (CommandState {
                logic: KeyBinding::Mouse(MouseButton::Right, ButtonStatus::Down),
                state: false,
            }),
            m.bindings()[Command::DebugToggleSnake] == (CommandState {
                logic: KeyBinding::KeyToggle(KEY_P, ButtonStatus::Pressed),
                state: false,
            }),
            m.bindings()[Command::SnakeMoveUp] == (CommandState {
                logic: KeyBinding::Key(KEY_UP, ButtonStatus::Pressed),
                state: false,
            }),
            m.bindings()[Command::SnakeMoveDown] == (CommandState {
                logic: KeyBinding::Key(KEY_DOWN, ButtonStatus::Pressed),
                state: false,
            }),
            m.bindings()[Command::SnakeMoveLeft] == (CommandState {
                logic: KeyBinding::Key(KEY_LEFT, ButtonStatus::Pressed),
                state: false,
            }),
            m.bindings()[Command::SnakeMoveRight] == (CommandState {
                logic: KeyBinding::Key(KEY_RIGHT, ButtonStatus::Pressed),
                state: false,
            }),
    {
        let mut ret = Self::new();
        ret.key_toggle(Command::DebugToggleInfo, KEY_F12, ButtonStatus::Pressed, true);
        ret.simple_key_bind(Command::DebugStepLogic, KEY_F10, ButtonStatus::Pressed);
        ret.key_toggle(Command::DebugToggleLogic, KEY_F11, ButtonStatus::Pressed, true);
        ret.advanced_bind(
            Command::DevToggleHotLoading,
            KeyBinding::KeyToggle(KEY_H, ButtonStatus::Pressed),
        );
        ret.simple_key_bind(Command::DevHotLoadModels, KEY_L, ButtonStatus::Pressed);
        ret.simple_key_bind(Command::PlayerCameraMoveUp, KEY_E, ButtonStatus::Pressed);
        ret.simple_key_bind(Command::PlayerCameraMoveDown, KEY_D, ButtonStatus::Pressed);
        ret.simple_key_bind(Command::PlayerCameraMoveLeft, KEY_S, ButtonStatus::Pressed);
        ret.simple_key_bind(Command::PlayerCameraMoveRight, KEY_F, ButtonStatus::Pressed);
        ret.simple_mouse_bind(Command::PlayerClickToMove, MouseButton::Left, ButtonStatus::Pressed);
        ret.simple_mouse_bind(Command::PlayerOrbitCamera, MouseButton::Right, ButtonStatus::Down);
        ret.key_toggle(Command::DebugToggleSnake, KEY_P, ButtonStatus::Pressed, false);
        ret.simple_key_bind(Command::SnakeMoveUp, KEY_UP, ButtonStatus::Pressed);
        ret.simple_key_bind(Command::SnakeMoveDown, KEY_DOWN, ButtonStatus::Pressed);
        ret.simple_key_bind(Command::SnakeMoveLeft, KEY_LEFT, ButtonStatus::Pressed);
        ret.simple_key_bind(Command::SnakeMoveRight, KEY_RIGHT, ButtonStatus::Pressed);
        ret
    }
}

} // verus!
