//! Keys, and what the viewer asks of the terminal.

use vstd::prelude::*;

verus! {

/// The keys held down together with another.
#[derive(Clone, Copy, PartialEq, Eq, Debug)]
pub struct Modifiers {
    pub shift: bool,
    pub control: bool,
    pub alt: bool,
    pub logo: bool,
    pub hyper: bool,
    pub meta: bool,
}

impl Modifiers {
    /// Control is held, and nothing else.
    pub open spec fn only_control(self) -> bool {
        self.control && !self.shift && !self.alt && !self.logo && !self.hyper && !self.meta
    }

    /// Tests whether Control is held, and nothing else.
    pub fn is_control(&self) -> (r: bool)
        ensures
            r == self.only_control(),
    {
        self.control && !self.shift && !self.alt && !self.logo && !self.hyper && !self.meta
    }
}

#[derive(Clone, Copy, PartialEq, Eq, Debug)]
pub enum KeyCode {
    Char(char),
    Up,
    Down,
    PageUp,
    PageDown,
    Home,
    End,
    Enter,
    Esc,
    Backspace,
    /// A key that the viewer has no use for.
    Other,
}

#[derive(Clone, Copy, PartialEq, Eq, Debug)]
pub struct Key {
    pub modifiers: Modifiers,
    pub code: KeyCode,
}

/// What is to happen after a key.
#[derive(Clone, Copy, PartialEq, Eq, Debug)]
pub enum Action {
    /// Show the new state.
    Continue,
    /// Leave the viewer.
    Quit,
    /// Open the selected line in the editor.
    OpenEditor,
}

} // verus!
