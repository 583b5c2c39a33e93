//! The numbers under which keys and mouse buttons are kept.

use vstd::prelude::*;

verus! {

/// Where the ids of keys begin.
pub const KEY_OFFSET: usize = 0;

/// Where the ids of mouse buttons begin; key codes stay below it.
pub const MOUSE_OFFSET: usize = 256;

/// A button of the mouse.
#[derive(Debug, Clone, Copy, PartialEq, Eq, Structural)]
pub enum MouseButton {
    Left,
    Right,
    Middle,
    /// Any other button, by its number.
    Other(u16),
}

/// The id of a key, by its code.
pub fn key_id(code: u32) -> (id: usize)
    ensures
        id == code + KEY_OFFSET,
{
    code as usize + KEY_OFFSET
}

/// The id of a mouse button: left, right and middle come first, then the
/// other buttons by their numbers.
pub fn mouse_id(button: MouseButton) -> (id: usize)
    ensures
        id == MOUSE_OFFSET + (match button {
            MouseButton::Left => 0,
            MouseButton::Right => 1,
            MouseButton::Middle => 2,
            MouseButton::Other(number) => 3 + number,
        }),
{
    MOUSE_OFFSET + (match button {
        MouseButton::Left => 0,
        MouseButton::Right => 1,
        MouseButton::Middle => 2,
        MouseButton::Other(number) => 3 + number as usize,
    })
}

} // verus!
