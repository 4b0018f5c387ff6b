use vstd::prelude::*;

use crate::app::Key;

verus! {

/// Whether a key went down, is held, or came up.
#[derive(Clone, Copy, Debug, PartialEq, Eq, Structural)]
pub enum KeyKind {
    /// The key went down.
    Press,
    /// The key is held down and repeats.
    Repeat,
    /// The key came up.
    Release,
}

/// What the terminal delivered.
#[derive(Clone, Copy, Debug, PartialEq, Eq, Structural)]
pub enum Input {
    /// A key event.
    Key { key: Key, kind: KeyKind },
    /// Anything else: the mouse, a resize, pasted text.
    Other,
}

/// The key that `input` is a press of, where it is one.
pub open spec fn pressed(input: Option<Input>) -> Option<Key> {
    match input {
        Some(Input::Key { key, kind: KeyKind::Press }) => Some(key),
        _ => None,
    }
}

/// Picks the key presses out of the terminal's input.
pub struct EventHandler;

impl EventHandler {
    /// How long one poll waits for input, in milliseconds.
    pub const TIMEOUT_MS: u64 = 50;

    /// The key press that one poll of the terminal brought.
    ///
    /// `input` is what the terminal delivered within the timeout, `None`
    /// when it delivered nothing. Only a key that went down counts: some
    /// terminals report the release and the repeats of a key too.
    pub fn poll(input: Option<Input>) -> (key: Option<Key>)
        ensures
            key == pressed(input),
    {
        match input {
            Some(Input::Key { key, kind: KeyKind::Press }) => Some(key),
            _ => None,
        }
    }
}

} // verus!
