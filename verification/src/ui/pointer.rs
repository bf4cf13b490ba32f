//! Mouse pointer shapes, set with the OSC 22 escape sequence (supported by
//! iTerm2 3.5+, Terminal.app, Kitty, Ghostty, etc.).

use vstd::prelude::*;

verus! {

#[derive(Debug, Clone, Copy, PartialEq, Eq, Structural)]
pub enum PointerShape {
    Default,
    Text,
}

impl PointerShape {
    /// The escape sequence that selects this shape.
    pub fn escape(self) -> (r: &'static str)
        ensures
            r@ == match self {
                PointerShape::Default => "\x1b]22;default\x1b\\"@,
                PointerShape::Text => "\x1b]22;text\x1b\\"@,
            },
    {
        match self {
            PointerShape::Default => "\x1b]22;default\x1b\\",
            PointerShape::Text => "\x1b]22;text\x1b\\",
        }
    }
}

} // verus!
