use vstd::prelude::*;
use std::collections::HashSet;

verus! {

broadcast use vstd::std_specs::hash::group_hash_axioms;

/// The keys held down, by key code.
#[derive(Debug)]
pub struct Keyboard {
    pub keys_pressed: HashSet<usize>,
}

impl Keyboard {
    /// A keyboard with no key held.
    pub fn new() -> (r: Keyboard)
        ensures
            r.keys_pressed@ == Set::<usize>::empty(),
    {
        Keyboard { keys_pressed: HashSet::new() }
    }

    /// Records that `key` went down.
    pub fn press(&mut self, key: usize)
        ensures
            final(self).keys_pressed@ == old(self).keys_pressed@.insert(key),
    {
        self.keys_pressed.insert(key);
    }

    /// Records that `key` came up.
    pub fn release(&mut self, key: usize)
        ensures
            final(self).keys_pressed@ == old(self).keys_pressed@.remove(key),
    {
        self.keys_pressed.remove(&key);
    }

    /// Whether `key` is held down.
    pub fn is_pressed(&self, key: usize) -> (r: bool)
        ensures
            r == self.keys_pressed@.contains(key),
    {
        self.keys_pressed.contains(&key)
    }
}

/// Code of the left mouse button.
pub const LEFT_BUTTON: u16 = 0;

/// Code of the right mouse button.
pub const RIGHT_BUTTON: u16 = 1;

/// Code of the middle mouse button; other buttons take the codes above it.
pub const MIDDLE_BUTTON: u16 = 2;

/// The cursor position in physical pixels and the buttons held down, by button code.
#[derive(Debug)]
pub struct Mouse {
    pub x: u32,
    pub y: u32,
    pub pressed_buttons: HashSet<u16>,
}

impl Mouse {
    /// A mouse at the origin with no button held.
    pub fn new() -> (r: Mouse)
        ensures
            r.x == 0 && r.y == 0,
            r.pressed_buttons@ == Set::<u16>::empty(),
    {
        Mouse { x: 0, y: 0, pressed_buttons: HashSet::new() }
    }

    /// Whether the right button is held.
    pub fn on_right_click(&self) -> (r: bool)
        ensures
            r == self.pressed_buttons@.contains(RIGHT_BUTTON),
    {
        self.pressed_buttons.contains(&RIGHT_BUTTON)
    }

    /// Whether the left button is held.
    pub fn on_left_click(&self) -> (r: bool)
        ensures
            r == self.pressed_buttons@.contains(LEFT_BUTTON),
    {
        self.pressed_buttons.contains(&LEFT_BUTTON)
    }

    /// Moves the cursor.
    pub fn set_position(&mut self, x: u32, y: u32)
        ensures
            final(self).x == x && final(self).y == y,
            final(self).pressed_buttons@ == old(self).pressed_buttons@,
    {
        self.x = x;
        self.y = y;
    }

    /// Records that `button` went down.
    pub fn button_pressed(&mut self, button: u16)
        ensures
            final(self).x == old(self).x && final(self).y == old(self).y,
            final(self).pressed_buttons@ == old(self).pressed_buttons@.insert(button),
    {
        self.pressed_buttons.insert(button);
    }

    /// Records that `button` came up.
    pub fn button_released(&mut self, button: u16)
        ensures
            final(self).x == old(self).x && final(self).y == old(self).y,
            final(self).pressed_buttons@ == old(self).pressed_buttons@.remove(button),
    {
        self.pressed_buttons.remove(&button);
    }
}

/// One input event, with positions already in physical pixels.
#[derive(Clone, Copy, Debug, PartialEq, Eq, Structural)]
pub enum InputEvent {
    KeyPressed(usize),
    KeyReleased(usize),
    CursorMoved(u32, u32),
    ButtonPressed(u16),
    ButtonReleased(u16),
    Resized,
}

/// The input state an application reads each frame.
#[derive(Debug)]
pub struct Event {
    pub mouse: Mouse,
    pub keyboard: Keyboard,
    pub resized: bool,
}

impl Event {
    /// No key or button held, cursor at the origin, no resize pending.
    pub fn new() -> (r: Event)
        ensures
            r.mouse.x == 0 && r.mouse.y == 0,
            r.mouse.pressed_buttons@ == Set::<u16>::empty(),
            r.keyboard.keys_pressed@ == Set::<usize>::empty(),
            !r.resized,
    {
        Event { mouse: Mouse::new(), keyboard: Keyboard::new(), resized: false }
    }

    /// Applies one input event. A resize is remembered until `clear`, and tells the
    /// application to lay its tree out again.
    pub fn handle_event(&mut self, event: InputEvent)
        ensures
            match event {
                InputEvent::KeyPressed(k) => final(self).keyboard.keys_pressed@ == old(
                    self,
                ).keyboard.keys_pressed@.insert(k),
                InputEvent::KeyReleased(k) => final(self).keyboard.keys_pressed@ == old(
                    self,
                ).keyboard.keys_pressed@.remove(k),
                _ => final(self).keyboard.keys_pressed@ == old(self).keyboard.keys_pressed@,
            },
            match event {
                InputEvent::ButtonPressed(b) => final(self).mouse.pressed_buttons@ == old(
                    self,
                ).mouse.pressed_buttons@.insert(b),
                InputEvent::ButtonReleased(b) => final(self).mouse.pressed_buttons@ == old(
                    self,
                ).mouse.pressed_buttons@.remove(b),
                _ => final(self).mouse.pressed_buttons@ == old(self).mouse.pressed_buttons@,
            },
            match event {
                InputEvent::CursorMoved(x, y) => final(self).mouse.x == x && final(self).mouse.y == y,
                _ => final(self).mouse.x == old(self).mouse.x && final(self).mouse.y == old(
                    self,
                ).mouse.y,
            },
            final(self).resized == (old(self).resized || event == InputEvent::Resized),
    {
        match event {
            InputEvent::KeyPressed(k) => self.keyboard.press(k),
            InputEvent::KeyReleased(k) => self.keyboard.release(k),
            InputEvent::CursorMoved(x, y) => self.mouse.set_position(x, y),
            InputEvent::ButtonPressed(b) => self.mouse.button_pressed(b),
            InputEvent::ButtonReleased(b) => self.mouse.button_released(b),
            InputEvent::Resized => {
                self.resized = true;
            },
        }
    }

    /// Forgets a handled resize.
    pub fn clear(&mut self)
        ensures
            !final(self).resized,
            final(self).mouse == old(self).mouse,
            final(self).keyboard == old(self).keyboard,
    {
        self.resized = false;
    }
}

} // verus!
