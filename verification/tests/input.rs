use deeper::commands::{
    Command, CommandManager, CommandState, KeyBinding, KEY_F10, KEY_F11, KEY_F12, KEY_H, KEY_P,
    KEY_UP,
};
use deeper::input::{ButtonState, ButtonStatus, ElementState, InputState, MouseButton, MouseState};

#[test]
fn a_new_button_is_up() {
    let b = ButtonState::new();
    assert!(!b.pressed && !b.down);
    assert!(b.status(ButtonStatus::Up));
    assert!(b.status(ButtonStatus::Released));
    assert!(!b.status(ButtonStatus::Down));
    assert!(!b.status(ButtonStatus::Pressed));
}

#[test]
fn a_key_is_pressed_only_on_the_frame_it_goes_down() {
    let mut s = InputState::new();
    s.update_from_key(17, ElementState::Pressed);
    assert!(s.is_key_pressed(17));
    assert!(s.is_key_down(17));
    s.new_frame();
    assert!(!s.is_key_pressed(17));
    assert!(s.is_key_down(17));
    // a repeated press while held does not press it again
    s.update_from_key(17, ElementState::Pressed);
    assert!(!s.is_key_pressed(17));
    s.update_from_key(17, ElementState::Released);
    assert!(!s.is_key_down(17));
    assert!(s.keyboard.get(&17).unwrap().status(ButtonStatus::Up));
    assert!(s.keyboard.get(&17).unwrap().status(ButtonStatus::Released));
}

#[test]
fn an_unseen_key_is_not_down() {
    let s = InputState::new();
    assert!(!s.key_state(3, ButtonStatus::Down));
    assert!(!s.key_state(3, ButtonStatus::Up));
    assert!(!s.key_state(3, ButtonStatus::Pressed));
    assert!(!s.key_state(3, ButtonStatus::Released));
    assert!(!s.is_key_down(3));
    assert!(!s.is_key_pressed(3));
}

#[test]
fn key_state_tells_whether_the_key_is_down_whatever_is_asked() {
    let mut s = InputState::new();
    s.update_from_key(9, ElementState::Pressed);
    for status in [ButtonStatus::Down, ButtonStatus::Up, ButtonStatus::Pressed, ButtonStatus::Released] {
        assert!(s.key_state(9, status));
    }
    s.new_frame();
    assert!(s.key_state(9, ButtonStatus::Pressed));
    s.update_from_key(9, ElementState::Released);
    for status in [ButtonStatus::Down, ButtonStatus::Up, ButtonStatus::Pressed, ButtonStatus::Released] {
        assert!(!s.key_state(9, status));
    }
}

#[test]
fn mouse_buttons_follow_their_events() {
    let mut m = MouseState::new();
    m.update_from_mouse_button(&MouseButton::Right, &ElementState::Pressed);
    assert!(m.right.pressed && m.right.down);
    assert!(!m.left.down && !m.middle.down);
    m.update_from_mouse_button(&MouseButton::Other(7), &ElementState::Pressed);
    assert!(!m.left.down && !m.middle.down);
    m.update_from_mouse_button(&MouseButton::Right, &ElementState::Released);
    assert!(!m.right.pressed && !m.right.down);

    let mut s = InputState::new();
    s.mouse.update_from_mouse_button(&MouseButton::Left, &ElementState::Pressed);
    assert!(s.mouse_button_state(MouseButton::Left, ButtonStatus::Pressed));
    assert!(!s.mouse_button_state(MouseButton::Other(1), ButtonStatus::Up));
    s.new_frame();
    assert!(!s.mouse_button_state(MouseButton::Left, ButtonStatus::Pressed));
    assert!(s.mouse_button_state(MouseButton::Left, ButtonStatus::Down));
}

#[test]
fn default_bindings_bind_every_command() {
    let m = CommandManager::default_bindings();
    let all = [
        Command::DebugToggleInfo,
        Command::DebugToggleLogic,
        Command::DebugStepLogic,
        Command::DebugToggleSnake,
        Command::SnakeMoveUp,
        Command::SnakeMoveDown,
        Command::SnakeMoveLeft,
        Command::SnakeMoveRight,
        Command::DevToggleHotLoading,
        Command::DevHotLoadModels,
        Command::PlayerCameraMoveUp,
        Command::PlayerCameraMoveDown,
        Command::PlayerCameraMoveLeft,
        Command::PlayerCameraMoveRight,
        Command::PlayerClickToMove,
        Command::PlayerOrbitCamera,
    ];
    for c in all {
        assert!(m.has_binding(c));
    }
    assert!(m.get(Command::DebugToggleInfo));
    assert!(m.get(Command::DebugToggleLogic));
    assert!(!m.get(Command::DebugToggleSnake));
    assert!(!m.get(Command::SnakeMoveUp));
}

#[test]
fn toggles_flip_on_each_press() {
    let mut m = CommandManager::default_bindings();
    let mut s = InputState::new();
    s.update_from_key(KEY_F12, ElementState::Pressed);
    s.update_from_key(KEY_P, ElementState::Pressed);
    m.update(&s);
    assert!(!m.get(Command::DebugToggleInfo));
    assert!(m.get(Command::DebugToggleSnake));
    // held down in the next frame: no further flip
    s.new_frame();
    m.update(&s);
    assert!(!m.get(Command::DebugToggleInfo));
    assert!(m.get(Command::DebugToggleSnake));
    s.update_from_key(KEY_F12, ElementState::Released);
    s.update_from_key(KEY_F12, ElementState::Pressed);
    m.update(&s);
    assert!(m.get(Command::DebugToggleInfo));
}

#[test]
fn simple_bindings_follow_the_key() {
    let mut m = CommandManager::default_bindings();
    let mut s = InputState::new();
    s.update_from_key(KEY_UP, ElementState::Pressed);
    s.update_from_key(KEY_H, ElementState::Pressed);
    s.update_from_key(KEY_F10, ElementState::Pressed);
    m.update(&s);
    assert!(m.get(Command::SnakeMoveUp));
    assert!(m.get(Command::DevToggleHotLoading));
    assert!(m.get(Command::DebugStepLogic));
    s.new_frame();
    m.update(&s);
    assert!(!m.get(Command::SnakeMoveUp));
    assert!(m.get(Command::DevToggleHotLoading));
    assert!(m.get(Command::DebugToggleLogic));
    assert!(!m.get(Command::DebugStepLogic));
}

#[test]
fn mouse_bindings_follow_the_button() {
    let mut m = CommandManager::default_bindings();
    let mut s = InputState::new();
    s.mouse.update_from_mouse_button(&MouseButton::Right, &ElementState::Pressed);
    m.update(&s);
    assert!(m.get(Command::PlayerOrbitCamera));
    assert!(!m.get(Command::PlayerClickToMove));
    s.new_frame();
    m.update(&s);
    assert!(m.get(Command::PlayerOrbitCamera));
}

#[test]
fn binding_a_command_replaces_its_binding() {
    let mut m = CommandManager::new();
    assert!(!m.has_binding(Command::DevHotLoadModels));
    assert!(!m.get(Command::DevHotLoadModels));
    m.key_toggle(Command::DevHotLoadModels, KEY_F11, ButtonStatus::Down, true);
    assert!(m.has_binding(Command::DevHotLoadModels));
    assert!(m.get(Command::DevHotLoadModels));
    m.simple_key_bind(Command::DevHotLoadModels, KEY_F11, ButtonStatus::Down);
    assert!(!m.get(Command::DevHotLoadModels));
    m.advanced_bind(Command::PlayerOrbitCamera, KeyBinding::Mouse(MouseButton::Middle, ButtonStatus::Up));
    let s = InputState::new();
    m.update(&s);
    assert!(m.get(Command::PlayerOrbitCamera));
    let c = CommandState::new(KeyBinding::Key(1, ButtonStatus::Up));
    assert!(!c.state);
}

#[test]
fn key_queries_of_the_first_input_state() {
    let mut s = InputState::new();
    assert!(!s.is_key_down(9));
    assert!(!s.is_key_pressed(9));
    s.update_from_key(9, ElementState::Pressed);
    assert!(s.is_key_down(9) && s.is_key_pressed(9));
    s.new_frame();
    assert!(s.is_key_down(9) && !s.is_key_pressed(9));
}
