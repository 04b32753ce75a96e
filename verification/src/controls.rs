//! Viewer controls: how keyboard and mouse input drive the orbit camera, the
//! brush and redrawing.
//!
//! | Action                 | Input                          |
//! |------------------------|--------------------------------|
//! | Orbit                  | Alt + left button drag         |
//! | Pan                    | Alt + middle button drag       |
//! | Zoom (dolly)           | Wheel                          |
//! | Focus / frame          | F (on the press)               |
//! | Paint                  | Left button drag without Alt   |
//! | Front / back / right   | Numpad 1 / 9 / 3               |
//! | Top (bottom with Alt)  | Numpad 7                       |
//! | Turn by 15°            | Numpad 4 / 6 / 8 / 2           |
//! | Brush size             | F + wheel                      |
//! | Brush hardness         | Shift + F + wheel              |
//!
//! The decisions are made by [`InputState::step`], which returns the actions
//! the viewer performs; the amounts (cursor deltas, wheel lines, angles in
//! real numbers, elapsed time) stay with the viewer.

use vstd::prelude::*;

verus! {

/// Keys the viewer reacts to.
#[derive(Copy, Clone, Debug, PartialEq, Eq, Structural)]
pub enum Key {
    Alt,
    Shift,
    F,
    Numpad1,
    Numpad2,
    Numpad3,
    Numpad4,
    Numpad6,
    Numpad7,
    Numpad8,
    Numpad9,
    Other,
}

/// Mouse buttons the viewer reacts to.
#[derive(Copy, Clone, Debug, PartialEq, Eq, Structural)]
pub enum Button {
    Left,
    Middle,
    Other,
}

/// A window event, reduced to what the decisions depend on.
#[derive(Copy, Clone, Debug, PartialEq, Eq, Structural)]
pub enum InputEvent {
    CloseRequested,
    Key { key: Key, pressed: bool },
    Wheel,
    MouseButton { button: Button, pressed: bool },
    CursorMoved,
    CursorLeft,
    CursorEntered,
    Resized,
    RedrawRequested,
    Other,
}

/// What the viewer does in response to an event, in order.
#[derive(Copy, Clone, Debug, PartialEq, Eq, Structural)]
pub enum Action {
    /// Leave the event loop.
    Exit,
    /// Aim the camera at the model (origin, radius 1) and stop its inertia.
    FrameModel,
    /// Put the camera at these angles in degrees and stop its inertia.
    SetAngles { yaw: i32, pitch: i32 },
    /// Turn the camera by these degrees (pitch kept within ±89°) and stop
    /// its inertia.
    Nudge { yaw: i32, pitch: i32 },
    /// An orbit drag starts: clear the orbit velocity.
    BeginOrbit,
    /// A pan drag starts: clear the pan velocity.
    BeginPan,
    /// Dolly the camera by the wheel amount.
    Zoom,
    /// Grow or shrink the brush by the wheel amount.
    BrushSize,
    /// Change the brush hardness gap by the wheel amount.
    BrushHardness,
    /// Record the new cursor position and the delta from the last one.
    TrackCursor,
    /// Orbit by the cursor delta.
    OrbitBy,
    /// Pan by the cursor delta.
    PanBy,
    /// Copy the orbit camera into the scene camera.
    SyncCamera,
    /// Resize the render surfaces to the new window size.
    Resize,
    /// Advance the camera clock; integrate inertia only when `integrate`.
    Inertia { integrate: bool },
    /// Render a frame.
    Render,
    /// Count the frame for the frame-rate display.
    CountFrame,
    /// Ask the window for another redraw.
    RequestRedraw,
}

/// Modifier keys, drag modes and cursor visibility.
#[derive(Copy, Clone, Debug, PartialEq, Eq, Structural)]
pub struct InputState {
    pub alt_held: bool,
    pub shift_held: bool,
    pub f_held: bool,
    /// Left button held without Alt.
    pub painting: bool,
    /// Alt + left button drag in progress.
    pub orbiting: bool,
    /// Alt + middle button drag in progress.
    pub panning: bool,
    pub cursor_visible: bool,
}

/// State after `e`.
pub open spec fn next_state(s: InputState, e: InputEvent) -> InputState {
    match e {
        InputEvent::Key { key: Key::Alt, pressed } => if pressed {
            InputState { alt_held: true, ..s }
        } else {
            InputState { alt_held: false, orbiting: false, panning: false, ..s }
        },
        InputEvent::Key { key: Key::Shift, pressed } => InputState { shift_held: pressed, ..s },
        InputEvent::Key { key: Key::F, pressed } => InputState { f_held: pressed, ..s },
        InputEvent::MouseButton { button: Button::Left, pressed } => if !pressed {
            InputState { orbiting: false, painting: false, ..s }
        } else if s.alt_held {
            InputState { painting: false, panning: false, orbiting: true, ..s }
        } else {
            InputState { orbiting: false, panning: false, painting: true, ..s }
        },
        InputEvent::MouseButton { button: Button::Middle, pressed } => if !pressed {
            InputState { panning: false, ..s }
        } else if s.alt_held {
            InputState { orbiting: false, painting: false, panning: true, ..s }
        } else {
            s
        },
        InputEvent::CursorMoved => InputState { cursor_visible: true, ..s },
        InputEvent::CursorEntered => InputState { cursor_visible: true, ..s },
        InputEvent::CursorLeft => InputState {
            cursor_visible: false,
            orbiting: false,
            panning: false,
            painting: false,
            ..s
        },
        _ => s,
    }
}

/// Camera command of a numpad key, before syncing and redrawing.
pub open spec fn numpad_command(key: Key, alt_held: bool) -> Option<Action> {
    match key {
        Key::Numpad1 => Some(Action::SetAngles { yaw: 0, pitch: 0 }),
        Key::Numpad9 => Some(Action::SetAngles { yaw: 180, pitch: 0 }),
        Key::Numpad3 => Some(Action::SetAngles { yaw: 90, pitch: 0 }),
        Key::Numpad7 => Some(
            Action::SetAngles { yaw: 0, pitch: if alt_held {
                -89i32
            } else {
                89
            } },
        ),
        Key::Numpad4 => Some(Action::Nudge { yaw: -15i32, pitch: 0 }),
        Key::Numpad6 => Some(Action::Nudge { yaw: 15, pitch: 0 }),
        Key::Numpad8 => Some(Action::Nudge { yaw: 0, pitch: -15i32 }),
        Key::Numpad2 => Some(Action::Nudge { yaw: 0, pitch: 15 }),
        _ => None,
    }
}

/// Actions for `e` in state `s`.
pub open spec fn actions(s: InputState, e: InputEvent) -> Seq<Action> {
    match e {
        InputEvent::CloseRequested => seq![Action::Exit],
        InputEvent::Key { key, pressed } => if key == Key::F {
            if pressed && !s.f_held {
                seq![Action::FrameModel, Action::SyncCamera, Action::RequestRedraw]
            } else {
                seq![]
            }
        } else if pressed && numpad_command(key, s.alt_held) is Some {
            seq![
                numpad_command(key, s.alt_held)->0,
                Action::SyncCamera,
                Action::RequestRedraw,
            ]
        } else {
            seq![]
        },
        InputEvent::Wheel => if s.f_held {
            if s.shift_held {
                seq![Action::BrushHardness, Action::RequestRedraw]
            } else {
                seq![Action::BrushSize, Action::RequestRedraw]
            }
        } else {
            seq![Action::Zoom, Action::SyncCamera, Action::RequestRedraw]
        },
        InputEvent::MouseButton { button, pressed } => if pressed && s.alt_held && button
            == Button::Left {
            seq![Action::BeginOrbit]
        } else if pressed && s.alt_held && button == Button::Middle {
            seq![Action::BeginPan]
        } else {
            seq![]
        },
        InputEvent::CursorMoved => seq![Action::TrackCursor] + (if s.orbiting {
            seq![Action::OrbitBy]
        } else {
            seq![]
        }) + (if s.panning {
            seq![Action::PanBy]
        } else {
            seq![]
        }) + (if s.orbiting || s.panning {
            seq![Action::SyncCamera]
        } else {
            seq![]
        }) + seq![Action::RequestRedraw],
        InputEvent::CursorLeft => seq![Action::RequestRedraw],
        InputEvent::CursorEntered => seq![Action::RequestRedraw],
        InputEvent::Resized => seq![Action::Resize, Action::RequestRedraw],
        InputEvent::RedrawRequested => seq![
            Action::Inertia { integrate: !(s.orbiting || s.panning) },
            Action::Render,
            Action::CountFrame,
            Action::RequestRedraw,
        ],
        InputEvent::Other => seq![],
    }
}

/// No two drags at once, and the camera rests while painting.
pub open spec fn consistent(s: InputState) -> bool {
    &&& !(s.orbiting && s.panning)
    &&& !(s.orbiting && s.painting)
    &&& !(s.panning && s.painting)
}

fn numpad_command_exec(key: Key, alt_held: bool) -> (r: Option<Action>)
    ensures
        r == numpad_command(key, alt_held),
{
    match key {
        Key::Numpad1 => Some(Action::SetAngles { yaw: 0, pitch: 0 }),
        Key::Numpad9 => Some(Action::SetAngles { yaw: 180, pitch: 0 }),
        Key::Numpad3 => Some(Action::SetAngles { yaw: 90, pitch: 0 }),
        Key::Numpad7 => Some(
            Action::SetAngles { yaw: 0, pitch: if alt_held {
                -89
            } else {
                89
            } },
        ),
        Key::Numpad4 => Some(Action::Nudge { yaw: -15, pitch: 0 }),
        Key::Numpad6 => Some(Action::Nudge { yaw: 15, pitch: 0 }),
        Key::Numpad8 => Some(Action::Nudge { yaw: 0, pitch: -15 }),
        Key::Numpad2 => Some(Action::Nudge { yaw: 0, pitch: 15 }),
        _ => None,
    }
}

impl InputState {
    /// No key held, no drag, cursor not yet seen.
    pub fn new() -> (r: Self)
        ensures
            r == (InputState {
                alt_held: false,
                shift_held: false,
                f_held: false,
                painting: false,
                orbiting: false,
                panning: false,
                cursor_visible: false,
            }),
    {
        InputState {
            alt_held: false,
            shift_held: false,
            f_held: false,
            painting: false,
            orbiting: false,
            panning: false,
            cursor_visible: false,
        }
    }

    /// Applies `event` and returns what the viewer must do, in order.
    pub fn step(&mut self, event: InputEvent) -> (r: Vec<Action>)
        ensures
            *final(self) == next_state(*old(self), event),
            r@ == actions(*old(self), event),
    {
        let s = *self;
        let mut out: Vec<Action> = Vec::new();
        match event {
            InputEvent::CloseRequested => {
                out.push(Action::Exit);
            },
            InputEvent::Key { key, pressed } => {
                match key {
                    Key::Alt => {
                        self.alt_held = pressed;
                        if !pressed {
                            self.orbiting = false;
                            self.panning = false;
                        }
                    },
                    Key::Shift => {
                        self.shift_held = pressed;
                    },
                    Key::F => {
                        if pressed && !s.f_held {
                            out.push(Action::FrameModel);
                            out.push(Action::SyncCamera);
                            out.push(Action::RequestRedraw);
                        }
                        self.f_held = pressed;
                    },
                    _ => {
                        if pressed {
                            match numpad_command_exec(key, s.alt_held) {
                                Some(a) => {
                                    out.push(a);
                                    out.push(Action::SyncCamera);
                                    out.push(Action::RequestRedraw);
                                },
                                None => {},
                            }
                        }
                    },
                }
            },
            InputEvent::Wheel => {
                if s.f_held {
                    if s.shift_held {
                        out.push(Action::BrushHardness);
                    } else {
                        out.push(Action::BrushSize);
                    }
                } else {
                    out.push(Action::Zoom);
                    out.push(Action::SyncCamera);
                }
                out.push(Action::RequestRedraw);
            },
            InputEvent::MouseButton { button, pressed } => {
                match button {
                    Button::Left => {
                        if pressed {
                            if s.alt_held {
                                self.painting = false;
                                self.panning = false;
                                self.orbiting = true;
                                out.push(Action::BeginOrbit);
                            } else {
                                self.orbiting = false;
                                self.panning = false;
                                self.painting = true;
                            }
                        } else {
                            self.orbiting = false;
                            self.painting = false;
                        }
                    },
                    Button::Middle => {
                        if pressed {
                            if s.alt_held {
                                self.orbiting = false;
                                self.painting = false;
                                self.panning = true;
                                out.push(Action::BeginPan);
                            }
                        } else {
                            self.panning = false;
                        }
                    },
                    Button::Other => {},
                }
            },
            InputEvent::CursorMoved => {
                self.cursor_visible = true;
                out.push(Action::TrackCursor);
                if s.orbiting {
                    out.push(Action::OrbitBy);
                }
                if s.panning {
                    out.push(Action::PanBy);
                }
                if s.orbiting || s.panning {
                    out.push(Action::SyncCamera);
                }
                out.push(Action::RequestRedraw);
            },
            InputEvent::CursorLeft => {
                self.cursor_visible = false;
                self.orbiting = false;
                self.panning = false;
                self.painting = false;
                out.push(Action::RequestRedraw);
            },
            InputEvent::CursorEntered => {
                self.cursor_visible = true;
                out.push(Action::RequestRedraw);
            },
            InputEvent::Resized => {
                out.push(Action::Resize);
                out.push(Action::RequestRedraw);
            },
            InputEvent::RedrawRequested => {
                out.push(Action::Inertia { integrate: !(s.orbiting || s.panning) });
                out.push(Action::Render);
                out.push(Action::CountFrame);
                out.push(Action::RequestRedraw);
            },
            InputEvent::Other => {},
        }
        assert(out@ =~= actions(s, event));
        out
    }

    /// Drag mode shown in the window title.
    pub fn mode_label(&self) -> (r: &'static str)
        ensures
            r@ == (if self.panning {
                "PAN"@
            } else if self.orbiting {
                "ORBIT"@
            } else if self.painting {
                "PAINT"@
            } else {
                ""@
            }),
    {
        if self.panning {
            "PAN"
        } else if self.orbiting {
            "ORBIT"
        } else if self.painting {
            "PAINT"
        } else {
            ""
        }
    }

    /// Wheel hint shown in the window title while F is held.
    pub fn hint_label(&self) -> (r: &'static str)
        ensures
            r@ == (if !self.f_held {
                ""@
            } else if self.shift_held {
                "  Shift+F+scroll=hardness"@
            } else {
                "  F+scroll=size"@
            }),
    {
        if !self.f_held {
            ""
        } else if self.shift_held {
            "  Shift+F+scroll=hardness"
        } else {
            "  F+scroll=size"
        }
    }
}

// ── Laws ────────────────────────────────────────────────────────────────────

/// The starting state is consistent, and every event keeps the state
/// consistent: at most one drag at a time, and painting never overlaps an
/// orbit or a pan (the camera rests while painting).
pub proof fn lemma_step_keeps_consistent(s: InputState, e: InputEvent)
    requires
        consistent(s),
    ensures
        consistent(next_state(s, e)),
        consistent(
            InputState {
                alt_held: false,
                shift_held: false,
                f_held: false,
                painting: false,
                orbiting: false,
                panning: false,
                cursor_visible: false,
            },
        ),
{
}

/// Releasing Alt ends any orbit or pan drag; the cursor leaving the window
/// ends every drag and painting and hides the brush.
pub proof fn lemma_release_ends_drags(s: InputState)
    ensures
        ({
            let t = next_state(s, InputEvent::Key { key: Key::Alt, pressed: false });
            !t.orbiting && !t.panning && !t.alt_held
        }),
        ({
            let t = next_state(s, InputEvent::CursorLeft);
            !t.orbiting && !t.panning && !t.painting && !t.cursor_visible
        }),
{
}

/// Focus happens on the press of F only: holding F (a repeated press) does
/// not frame the model again.
pub proof fn lemma_focus_on_press_edge(s: InputState)
    ensures
        actions(s, InputEvent::Key { key: Key::F, pressed: true }).contains(Action::FrameModel)
            == !s.f_held,
        !actions(
            next_state(s, InputEvent::Key { key: Key::F, pressed: true }),
            InputEvent::Key { key: Key::F, pressed: true },
        ).contains(Action::FrameModel),
{
    let a = actions(s, InputEvent::Key { key: Key::F, pressed: true });
    if !s.f_held {
        assert(a[0] == Action::FrameModel);
    }
    let t = next_state(s, InputEvent::Key { key: Key::F, pressed: true });
    assert(actions(t, InputEvent::Key { key: Key::F, pressed: true }) =~= seq![]);
}

/// A wheel step does exactly one of zooming, resizing the brush or changing
/// its hardness: the brush while F is held (hardness with Shift), the camera
/// otherwise.
pub proof fn lemma_wheel_does_one_thing(s: InputState)
    ensures
        ({
            let a = actions(s, InputEvent::Wheel);
            &&& a.contains(Action::Zoom) == !s.f_held
            &&& a.contains(Action::BrushSize) == (s.f_held && !s.shift_held)
            &&& a.contains(Action::BrushHardness) == (s.f_held && s.shift_held)
        }),
{
    let a = actions(s, InputEvent::Wheel);
    if !s.f_held {
        assert(a[0] == Action::Zoom);
    } else if s.shift_held {
        assert(a[0] == Action::BrushHardness);
    } else {
        assert(a[0] == Action::BrushSize);
    }
}

/// While a drag is in progress the camera's inertia is not integrated; the
/// user moves the camera directly.
pub proof fn lemma_no_inertia_while_dragging(s: InputState)
    requires
        s.orbiting || s.panning,
    ensures
        actions(s, InputEvent::RedrawRequested)[0] == (Action::Inertia { integrate: false }),
{
}

/// Modifier law: each modifier follows its own key, pressed or released, and
/// no other event changes it.
pub proof fn lemma_modifiers_follow_their_keys(s: InputState, e: InputEvent)
    ensures
        next_state(s, e).alt_held == (match e {
            InputEvent::Key { key: Key::Alt, pressed } => pressed,
            _ => s.alt_held,
        }),
        next_state(s, e).shift_held == (match e {
            InputEvent::Key { key: Key::Shift, pressed } => pressed,
            _ => s.shift_held,
        }),
        next_state(s, e).f_held == (match e {
            InputEvent::Key { key: Key::F, pressed } => pressed,
            _ => s.f_held,
        }),
{
}

/// Button law: a drag lasts while its button is held.  Pressing the left
/// button orbits with Alt and paints without it; pressing the middle button
/// with Alt pans; releasing the left button ends orbiting and painting, and
/// releasing the middle button ends panning.
pub proof fn lemma_drags_follow_buttons(s: InputState)
    ensures
        ({
            let t = next_state(s, InputEvent::MouseButton { button: Button::Left, pressed: true });
            &&& t.orbiting == s.alt_held
            &&& t.painting == !s.alt_held
            &&& !t.panning
        }),
        s.alt_held ==> ({
            let t = next_state(s, InputEvent::MouseButton { button: Button::Middle, pressed: true });
            t.panning && !t.orbiting && !t.painting
        }),
        ({
            let t = next_state(s, InputEvent::MouseButton { button: Button::Left, pressed: false });
            !t.orbiting && !t.painting
        }),
        !next_state(s, InputEvent::MouseButton { button: Button::Middle, pressed: false }).panning,
{
}

} // verus!
