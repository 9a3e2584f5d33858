//! Keyboard state and the handling of window input.
//!
//! Clicking into the window captures the cursor; while it is captured, keys
//! steer the camera and Escape releases it. While the cursor is free, the GUI
//! sees window events first and may consume them.
use vstd::prelude::*;

verus! {

/// The keys that the viewer reacts to; every other key is `Other`.
#[derive(Clone, Copy, Debug, PartialEq, Eq, Structural)]
pub enum Key {
    KeyW,
    KeyA,
    KeyS,
    KeyD,
    Space,
    ShiftLeft,
    ControlLeft,
    KeyP,
    KeyO,
    Escape,
    Other,
}

/// The slot of a tracked key in the keyboard's tables.
pub open spec fn key_slot(k: Key) -> int {
    match k {
        Key::KeyW => 0,
        Key::KeyA => 1,
        Key::KeyS => 2,
        Key::KeyD => 3,
        Key::Space => 4,
        Key::ShiftLeft => 5,
        Key::ControlLeft => 6,
        Key::KeyP => 7,
        Key::KeyO => 8,
        Key::Escape => 9,
        Key::Other => 10,
    }
}

fn slot(k: Key) -> (s: usize)
    ensures
        s == key_slot(k),
{
    match k {
        Key::KeyW => 0,
        Key::KeyA => 1,
        Key::KeyS => 2,
        Key::KeyD => 3,
        Key::Space => 4,
        Key::ShiftLeft => 5,
        Key::ControlLeft => 6,
        Key::KeyP => 7,
        Key::KeyO => 8,
        Key::Escape => 9,
        Key::Other => 10,
    }
}

/// Which keys are held, and which went down since the last reset.
pub struct Keyboard {
    held: [bool; 10],
    went_down: [bool; 10],
}

impl Keyboard {
    /// Whether `k` is held.
    pub closed spec fn is_pressed(&self, k: Key) -> bool {
        k != Key::Other && self.held@[key_slot(k)]
    }

    /// Whether `k` went down since the last reset.
    pub closed spec fn is_down(&self, k: Key) -> bool {
        k != Key::Other && self.went_down@[key_slot(k)]
    }

    /// No key is held or down.
    pub fn new() -> (kb: Keyboard)
        ensures
            forall|k: Key| !kb.is_pressed(k) && !kb.is_down(k),
    {
        Keyboard { held: [false; 10], went_down: [false; 10] }
    }

    /// Records that `k` was pressed or released. A press of a key that was not
    /// held makes it go down; keys other than the tracked ones are ignored.
    pub fn update_button(&mut self, k: Key, pressed: bool)
        ensures
            key_updated(*old(self), *final(self), k, pressed),
            !pressed ==> forall|j: Key| #[trigger] final(self).is_down(j) == old(self).is_down(j),
            forall|j: Key|
                #[trigger] final(self).is_down(j) && !old(self).is_down(j) ==> j == k && pressed
                    && !old(self).is_pressed(k),
    {
        if k == Key::Other {
            return;
        }
        let s = slot(k);
        if pressed && !self.held[s] {
            self.went_down[s] = true;
        }
        self.held[s] = pressed;
        proof {
            assert forall|j: Key| j != k implies key_slot(j) != key_slot(k) by {}
        }
    }

    /// Whether `k` is held.
    pub fn pressed(&self, k: Key) -> (b: bool)
        ensures
            b == self.is_pressed(k),
    {
        k != Key::Other && self.held[slot(k)]
    }

    /// Whether `k` went down since the last reset.
    pub fn down(&self, k: Key) -> (b: bool)
        ensures
            b == self.is_down(k),
    {
        k != Key::Other && self.went_down[slot(k)]
    }

    /// Ends a frame: no key counts as gone down any more; held keys stay held.
    pub fn reset(&mut self)
        ensures
            forall|k: Key| final(self).is_pressed(k) == old(self).is_pressed(k) && !final(self).is_down(k),
    {
        self.went_down = [false; 10];
    }
}

/// A window event, as far as the viewer's logic reads it.
#[derive(Clone, Copy, Debug, PartialEq, Eq, Structural)]
pub enum WindowInput {
    CloseRequested,
    Resized { width: u32, height: u32 },
    RedrawRequested,
    /// A mouse button changed; `left` tells the left button from the others.
    MouseButton { left: bool, pressed: bool },
    /// A key changed; `key` is `None` for a key without a known physical code.
    KeyboardKey { key: Option<Key>, pressed: bool, repeat: bool },
    Other,
}

/// What the application does in response to a window event.
#[derive(Clone, Copy, Debug, PartialEq, Eq, Structural)]
pub enum WindowAction {
    Nothing,
    Exit,
    Resize { width: u32, height: u32 },
    /// Run one frame: update the camera and render.
    Tick,
    /// Hide and grab the cursor, and tell the GUI that the button went up.
    CaptureCursor,
    /// Show and free the cursor, and move it to the window's centre.
    ReleaseCursor,
}

/// A device event, as far as the viewer's logic reads it.
#[derive(Clone, Copy, Debug, PartialEq, Eq, Structural)]
pub enum DeviceInput {
    Motion { axis: u32 },
    Other,
}

/// What the application does in response to a device event.
#[derive(Clone, Copy, Debug, PartialEq, Eq, Structural)]
pub enum DeviceAction {
    Nothing,
    /// Move the cursor back to the window's centre and add the motion to `axis`.
    CenterAndMove { axis: u32 },
}

/// The camera controls for one frame.
#[derive(Clone, Copy, Debug, PartialEq, Eq, Structural)]
pub struct TickControls {
    /// Right minus left (D and A).
    pub move_x: i8,
    /// Up minus down (Space and left Control).
    pub move_y: i8,
    /// Back minus forward (S and W).
    pub move_z: i8,
    /// Left Shift doubles the speed.
    pub sprint: bool,
    /// P went down: show or hide the CPU timings.
    pub toggle_cpu_bench: bool,
    /// O went down: show or hide the GPU timings.
    pub toggle_gpu_bench: bool,
}

pub open spec fn axis_value(plus: bool, minus: bool) -> int {
    (if plus {
        1int
    } else {
        0
    }) - (if minus {
        1int
    } else {
        0
    })
}

/// The GUI saw the event first and consumed it.
pub open spec fn taken_by_gui(trapped: bool, gui_consumed: bool) -> bool {
    !trapped && gui_consumed
}

pub open spec fn is_left_press(event: WindowInput) -> bool {
    event matches WindowInput::MouseButton { left, pressed } && left && pressed
}

pub open spec fn is_escape_press(event: WindowInput) -> bool {
    event == (WindowInput::KeyboardKey { key: Some(Key::Escape), pressed: true, repeat: false })
}

/// The response to a window event while the cursor is or is not captured.
pub open spec fn window_action(trapped: bool, event: WindowInput, gui_consumed: bool) -> WindowAction {
    if taken_by_gui(trapped, gui_consumed) {
        WindowAction::Nothing
    } else {
        match event {
            WindowInput::CloseRequested => WindowAction::Exit,
            WindowInput::Resized { width, height } => WindowAction::Resize { width, height },
            WindowInput::RedrawRequested => WindowAction::Tick,
            WindowInput::MouseButton { .. } => if is_left_press(event) && !trapped {
                WindowAction::CaptureCursor
            } else {
                WindowAction::Nothing
            },
            WindowInput::KeyboardKey { .. } => if trapped && is_escape_press(event) {
                WindowAction::ReleaseCursor
            } else {
                WindowAction::Nothing
            },
            WindowInput::Other => WindowAction::Nothing,
        }
    }
}

/// Whether the cursor is captured after a window event.
pub open spec fn next_trap(trapped: bool, event: WindowInput, gui_consumed: bool) -> bool {
    if taken_by_gui(trapped, gui_consumed) {
        trapped
    } else if !trapped && is_left_press(event) {
        true
    } else if trapped && is_escape_press(event) {
        false
    } else {
        trapped
    }
}

/// The key change that a window event records on the keyboard, if any: a key
/// event with a known code, not a repeat, while the cursor is captured, other
/// than the Escape press that frees the cursor.
pub open spec fn recorded_key(trapped: bool, event: WindowInput, gui_consumed: bool) -> Option<
    (Key, bool),
> {
    match event {
        WindowInput::KeyboardKey { key, pressed, repeat } => if trapped && !repeat && key is Some
            && !is_escape_press(event) {
            Some((key->0, pressed))
        } else {
            None
        },
        _ => None,
    }
}

/// `after` is `before` with the press or release of `k` recorded.
pub open spec fn key_updated(before: Keyboard, after: Keyboard, k: Key, pressed: bool) -> bool {
    &&& forall|j: Key|
        j != k ==> after.is_pressed(j) == before.is_pressed(j) && after.is_down(j) == before.is_down(
            j,
        )
    &&& after.is_pressed(k) == (k != Key::Other && pressed)
    &&& after.is_down(k) == (before.is_down(k) || (k != Key::Other && pressed
        && !before.is_pressed(k)))
}

/// The input state of the application: whether the cursor is captured, and the keyboard.
pub struct Controls {
    pub cursor_trap: bool,
    pub keyboard: Keyboard,
}

impl Controls {
    /// The cursor is free and no key is held.
    pub fn new() -> (c: Controls)
        ensures
            !c.cursor_trap,
            forall|k: Key| !c.keyboard.is_pressed(k) && !c.keyboard.is_down(k),
    {
        Controls { cursor_trap: false, keyboard: Keyboard::new() }
    }

    /// Whether the GUI sees a window event first: only while the cursor is free.
    pub fn offers_to_gui(&self) -> (b: bool)
        ensures
            b == !self.cursor_trap,
    {
        !self.cursor_trap
    }

    /// Handles a window event; `gui_consumed` tells whether the GUI, offered the
    /// event first, consumed it.
    pub fn on_window_event(&mut self, event: WindowInput, gui_consumed: bool) -> (a: WindowAction)
        ensures
            a == window_action(old(self).cursor_trap, event, gui_consumed),
            final(self).cursor_trap == next_trap(old(self).cursor_trap, event, gui_consumed),
            match recorded_key(old(self).cursor_trap, event, gui_consumed) {
                None => final(self).keyboard == old(self).keyboard,
                Some((k, pressed)) => key_updated(old(self).keyboard, final(self).keyboard, k, pressed),
            },
            forall|k: Key|
                old(self).cursor_trap && k != Key::Other && k != Key::Escape && event == (
                WindowInput::KeyboardKey { key: Some(k), pressed: true, repeat: false })
                    ==> #[trigger] final(self).keyboard.is_pressed(k),
            forall|k: Key|
                old(self).cursor_trap && event == (WindowInput::KeyboardKey {
                    key: Some(k),
                    pressed: false,
                    repeat: false,
                }) ==> !#[trigger] final(self).keyboard.is_pressed(k),
    {
        if !self.cursor_trap && gui_consumed {
            return WindowAction::Nothing;
        }
        match event {
            WindowInput::CloseRequested => WindowAction::Exit,
            WindowInput::Resized { width, height } => WindowAction::Resize { width, height },
            WindowInput::RedrawRequested => WindowAction::Tick,
            WindowInput::MouseButton { left, pressed } => {
                if left && pressed && !self.cursor_trap {
                    self.cursor_trap = true;
                    WindowAction::CaptureCursor
                } else {
                    WindowAction::Nothing
                }
            },
            WindowInput::KeyboardKey { key, pressed, repeat } => {
                if self.cursor_trap && !repeat {
                    match key {
                        Some(Key::Escape) if pressed => {
                            self.cursor_trap = false;
                            WindowAction::ReleaseCursor
                        },
                        Some(k) => {
                            self.keyboard.update_button(k, pressed);
                            WindowAction::Nothing
                        },
                        None => WindowAction::Nothing,
                    }
                } else {
                    WindowAction::Nothing
                }
            },
            WindowInput::Other => WindowAction::Nothing,
        }
    }

    /// Handles a device event: mouse motion moves the camera only while the
    /// cursor is captured.
    pub fn on_device_event(&self, event: DeviceInput) -> (a: DeviceAction)
        ensures
            a == match event {
                DeviceInput::Motion { axis } => if self.cursor_trap {
                    DeviceAction::CenterAndMove { axis }
                } else {
                    DeviceAction::Nothing
                },
                DeviceInput::Other => DeviceAction::Nothing,
            },
    {
        if !self.cursor_trap {
            return DeviceAction::Nothing;
        }
        match event {
            DeviceInput::Motion { axis } => DeviceAction::CenterAndMove { axis },
            DeviceInput::Other => DeviceAction::Nothing,
        }
    }

    /// The camera controls of this frame, read from the keyboard.
    pub fn tick_controls(&self) -> (c: TickControls)
        ensures
            c.move_x == axis_value(
                self.keyboard.is_pressed(Key::KeyD),
                self.keyboard.is_pressed(Key::KeyA),
            ),
            c.move_y == axis_value(
                self.keyboard.is_pressed(Key::Space),
                self.keyboard.is_pressed(Key::ControlLeft),
            ),
            c.move_z == axis_value(
                self.keyboard.is_pressed(Key::KeyS),
                self.keyboard.is_pressed(Key::KeyW),
            ),
            c.sprint == self.keyboard.is_pressed(Key::ShiftLeft),
            c.toggle_cpu_bench == self.keyboard.is_down(Key::KeyP),
            c.toggle_gpu_bench == self.keyboard.is_down(Key::KeyO),
    {
        let kb = &self.keyboard;
        TickControls {
            move_x: axis(kb.pressed(Key::KeyD), kb.pressed(Key::KeyA)),
            move_y: axis(kb.pressed(Key::Space), kb.pressed(Key::ControlLeft)),
            move_z: axis(kb.pressed(Key::KeyS), kb.pressed(Key::KeyW)),
            sprint: kb.pressed(Key::ShiftLeft),
            toggle_cpu_bench: kb.down(Key::KeyP),
            toggle_gpu_bench: kb.down(Key::KeyO),
        }
    }

    /// Ends a frame's input: keys no longer count as gone down.
    pub fn reset(&mut self)
        ensures
            final(self).cursor_trap == old(self).cursor_trap,
            forall|k: Key|
                final(self).keyboard.is_pressed(k) == old(self).keyboard.is_pressed(k)
                    && !final(self).keyboard.is_down(k),
    {
        self.keyboard.reset();
    }
}

fn axis(plus: bool, minus: bool) -> (v: i8)
    ensures
        v == axis_value(plus, minus),
{
    (if plus {
        1i8
    } else {
        0
    }) - (if minus {
        1i8
    } else {
        0
    })
}

/// The cursor is captured only by a left click that the GUI did not take,
/// while it is free.
pub proof fn lemma_capture_only_by_click(trapped: bool, event: WindowInput, gui_consumed: bool)
    requires
        !trapped,
        next_trap(trapped, event, gui_consumed),
    ensures
        is_left_press(event),
        !gui_consumed,
        window_action(trapped, event, gui_consumed) == WindowAction::CaptureCursor,
{
}

/// The cursor is freed only by pressing Escape (not a key repeat) while it is captured.
pub proof fn lemma_release_only_by_escape(trapped: bool, event: WindowInput, gui_consumed: bool)
    requires
        trapped,
        !next_trap(trapped, event, gui_consumed),
    ensures
        is_escape_press(event),
        window_action(trapped, event, gui_consumed) == WindowAction::ReleaseCursor,
{
}

/// Keys reach the keyboard only while the cursor is captured, and never when
/// the GUI consumed the event.
pub proof fn lemma_keys_only_while_captured(trapped: bool, event: WindowInput, gui_consumed: bool)
    requires
        recorded_key(trapped, event, gui_consumed) is Some,
    ensures
        trapped,
        !taken_by_gui(trapped, gui_consumed),
        next_trap(trapped, event, gui_consumed),
{
}

/// A release never makes a key go down, and releases it: after recording the
/// release of `k`, no key's "went down" flag has changed and `k` is not held.
pub proof fn lemma_release_never_goes_down(before: Keyboard, after: Keyboard, k: Key)
    requires
        key_updated(before, after, k, false),
    ensures
        forall|j: Key| #[trigger] after.is_down(j) == before.is_down(j),
        !after.is_pressed(k),
{
    assert forall|j: Key| #[trigger] after.is_down(j) == before.is_down(j) by {
        if j == k {
        }
    }
}

/// A key goes down only when it is pressed while it was not held: a key that
/// was not down before and is down after one recorded change is the key of that
/// change, the change was a press, and the key was up before it.
pub proof fn lemma_down_only_on_fresh_press(before: Keyboard, after: Keyboard, k: Key, pressed: bool, j: Key)
    requires
        key_updated(before, after, k, pressed),
        !before.is_down(j),
        after.is_down(j),
    ensures
        j == k,
        pressed,
        !before.is_pressed(k),
{
}

/// While the cursor is captured, every key event with a known key that is not a
/// repeat, other than the Escape press, reaches the keyboard, releases as well as
/// presses: afterwards the key is held exactly when the event was a press, and
/// every other key is held as before. `after` is the keyboard that
/// `Controls::on_window_event` leaves, as its contract gives it.
pub proof fn lemma_captured_key_events_are_recorded(
    before: Keyboard,
    after: Keyboard,
    gui_consumed: bool,
    k: Key,
    pressed: bool,
)
    requires
        k != Key::Other,
        !(k == Key::Escape && pressed),
        match recorded_key(true, WindowInput::KeyboardKey { key: Some(k), pressed, repeat: false }, gui_consumed) {
            None => after == before,
            Some((k2, p2)) => key_updated(before, after, k2, p2),
        },
    ensures
        after.is_pressed(k) == pressed,
        forall|j: Key| j != k ==> #[trigger] after.is_pressed(j) == before.is_pressed(j),
{
}

/// An event that the GUI consumed changes nothing and asks for nothing.
pub proof fn lemma_gui_consumed_is_inert(event: WindowInput)
    ensures
        window_action(false, event, true) == WindowAction::Nothing,
        !next_trap(false, event, true),
        recorded_key(false, event, true) is None,
{
}

} // verus!
