use malx::controls::{Action, Button, InputEvent, InputState, Key};

fn key(k: Key, pressed: bool) -> InputEvent {
    InputEvent::Key { key: k, pressed }
}

fn mouse(b: Button, pressed: bool) -> InputEvent {
    InputEvent::MouseButton { button: b, pressed }
}

#[test]
fn alt_left_drag_orbits() {
    let mut s = InputState::new();
    assert!(s.step(key(Key::Alt, true)).is_empty());
    assert_eq!(s.step(mouse(Button::Left, true)), vec![Action::BeginOrbit]);
    assert!(s.orbiting && !s.painting && !s.panning);
    assert_eq!(
        s.step(InputEvent::CursorMoved),
        vec![Action::TrackCursor, Action::OrbitBy, Action::SyncCamera, Action::RequestRedraw]
    );
    assert_eq!(s.mode_label(), "ORBIT");
    s.step(mouse(Button::Left, false));
    assert!(!s.orbiting);
}

#[test]
fn alt_middle_drag_pans() {
    let mut s = InputState::new();
    s.step(key(Key::Alt, true));
    assert_eq!(s.step(mouse(Button::Middle, true)), vec![Action::BeginPan]);
    assert!(s.panning && !s.orbiting);
    assert_eq!(
        s.step(InputEvent::CursorMoved),
        vec![Action::TrackCursor, Action::PanBy, Action::SyncCamera, Action::RequestRedraw]
    );
    assert_eq!(s.mode_label(), "PAN");
}

#[test]
fn left_drag_without_alt_paints() {
    let mut s = InputState::new();
    assert!(s.step(mouse(Button::Left, true)).is_empty());
    assert!(s.painting && !s.orbiting);
    assert_eq!(s.step(InputEvent::CursorMoved), vec![Action::TrackCursor, Action::RequestRedraw]);
    assert_eq!(s.mode_label(), "PAINT");
    s.step(mouse(Button::Left, false));
    assert!(!s.painting);
    assert_eq!(s.mode_label(), "");
}

#[test]
fn releasing_alt_ends_drags() {
    let mut s = InputState::new();
    s.step(key(Key::Alt, true));
    s.step(mouse(Button::Left, true));
    s.step(key(Key::Alt, false));
    assert!(!s.orbiting && !s.panning && !s.alt_held);
    s.step(key(Key::Alt, true));
    s.step(mouse(Button::Middle, true));
    s.step(key(Key::Alt, false));
    assert!(!s.panning);
}

#[test]
fn cursor_leaving_ends_everything() {
    let mut s = InputState::new();
    s.step(InputEvent::CursorEntered);
    assert!(s.cursor_visible);
    s.step(mouse(Button::Left, true));
    assert_eq!(s.step(InputEvent::CursorLeft), vec![Action::RequestRedraw]);
    assert!(!s.painting && !s.cursor_visible && !s.orbiting && !s.panning);
}

#[test]
fn focus_only_on_press_edge() {
    let mut s = InputState::new();
    assert_eq!(
        s.step(key(Key::F, true)),
        vec![Action::FrameModel, Action::SyncCamera, Action::RequestRedraw]
    );
    assert!(s.step(key(Key::F, true)).is_empty());
    assert!(s.step(key(Key::F, false)).is_empty());
    assert_eq!(s.step(key(Key::F, true))[0], Action::FrameModel);
}

#[test]
fn numpad_presets() {
    let mut s = InputState::new();
    assert_eq!(s.step(key(Key::Numpad1, true))[0], Action::SetAngles { yaw: 0, pitch: 0 });
    assert_eq!(s.step(key(Key::Numpad9, true))[0], Action::SetAngles { yaw: 180, pitch: 0 });
    assert_eq!(s.step(key(Key::Numpad3, true))[0], Action::SetAngles { yaw: 90, pitch: 0 });
    assert_eq!(s.step(key(Key::Numpad7, true))[0], Action::SetAngles { yaw: 0, pitch: 89 });
    s.step(key(Key::Alt, true));
    assert_eq!(s.step(key(Key::Numpad7, true))[0], Action::SetAngles { yaw: 0, pitch: -89 });
    assert_eq!(s.step(key(Key::Numpad4, true))[0], Action::Nudge { yaw: -15, pitch: 0 });
    assert_eq!(s.step(key(Key::Numpad6, true))[0], Action::Nudge { yaw: 15, pitch: 0 });
    assert_eq!(s.step(key(Key::Numpad8, true))[0], Action::Nudge { yaw: 0, pitch: -15 });
    assert_eq!(
        s.step(key(Key::Numpad2, true)),
        vec![Action::Nudge { yaw: 0, pitch: 15 }, Action::SyncCamera, Action::RequestRedraw]
    );
    assert!(s.step(key(Key::Numpad2, false)).is_empty());
    assert!(s.step(key(Key::Other, true)).is_empty());
}

#[test]
fn wheel_routing() {
    let mut s = InputState::new();
    assert_eq!(s.step(InputEvent::Wheel), vec![Action::Zoom, Action::SyncCamera, Action::RequestRedraw]);
    s.step(key(Key::F, true));
    assert_eq!(s.step(InputEvent::Wheel), vec![Action::BrushSize, Action::RequestRedraw]);
    assert_eq!(s.hint_label(), "  F+scroll=size");
    s.step(key(Key::Shift, true));
    assert_eq!(s.step(InputEvent::Wheel), vec![Action::BrushHardness, Action::RequestRedraw]);
    assert_eq!(s.hint_label(), "  Shift+F+scroll=hardness");
}

#[test]
fn redraw_integrates_inertia_only_when_idle() {
    let mut s = InputState::new();
    assert_eq!(
        s.step(InputEvent::RedrawRequested),
        vec![
            Action::Inertia { integrate: true },
            Action::Render,
            Action::CountFrame,
            Action::RequestRedraw
        ]
    );
    s.step(key(Key::Alt, true));
    s.step(mouse(Button::Left, true));
    assert_eq!(s.step(InputEvent::RedrawRequested)[0], Action::Inertia { integrate: false });
}

#[test]
fn window_events() {
    let mut s = InputState::new();
    assert_eq!(s.step(InputEvent::CloseRequested), vec![Action::Exit]);
    assert_eq!(s.step(InputEvent::Resized), vec![Action::Resize, Action::RequestRedraw]);
    assert!(s.step(InputEvent::Other).is_empty());
}

#[test]
fn never_two_drags_at_once() {
    let events = [
        key(Key::Alt, true),
        mouse(Button::Left, true),
        mouse(Button::Middle, true),
        mouse(Button::Left, true),
        key(Key::Alt, false),
        mouse(Button::Left, true),
        key(Key::Alt, true),
        mouse(Button::Middle, true),
        mouse(Button::Left, true),
        InputEvent::CursorLeft,
    ];
    let mut s = InputState::new();
    for e in events {
        s.step(e);
        assert!(!(s.orbiting && s.panning));
        assert!(!(s.orbiting && s.painting));
    }
}

#[test]
fn alt_middle_press_while_painting_ends_painting() {
    let mut s = InputState::new();
    s.step(mouse(Button::Left, true));
    assert!(s.painting);
    s.step(key(Key::Alt, true));
    assert_eq!(s.step(mouse(Button::Middle, true)), vec![Action::BeginPan]);
    assert!(s.panning);
    assert!(!s.painting);
    assert!(!s.orbiting);
}

#[test]
fn numpad_turns_are_all_fifteen_degrees() {
    let mut s = InputState::new();
    assert_eq!(s.step(key(Key::Numpad4, true))[0], Action::Nudge { yaw: -15, pitch: 0 });
    assert_eq!(s.step(key(Key::Numpad6, true))[0], Action::Nudge { yaw: 15, pitch: 0 });
    assert_eq!(s.step(key(Key::Numpad8, true))[0], Action::Nudge { yaw: 0, pitch: -15 });
    assert_eq!(s.step(key(Key::Numpad2, true))[0], Action::Nudge { yaw: 0, pitch: 15 });
}
