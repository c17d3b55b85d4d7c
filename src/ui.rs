//! Small state of the terminal client: input focus, editing mode, and the
//! urgency of a notification.
use vstd::prelude::*;

verus! {

/// How pressing for attention a notification is.
#[derive(Debug, Clone, Hash, PartialEq, Eq, Structural)]
pub enum Urgency {
    Info,
    Warning,
    Error,
}

impl Urgency {
    /// The glyph shown before a notification of this urgency.
    pub fn icon(&self) -> (r: &'static str)
        ensures
            r@ == match *self {
                Urgency::Info => seq!['\u{e66a}'],
                Urgency::Warning => seq!['\u{f421}'],
                Urgency::Error => seq!['\u{ea87}'],
            },
    {
        match self {
            Urgency::Info => {
                proof {
                    reveal_strlit("\u{e66a}");
                }
                "\u{e66a}"
            },
            Urgency::Warning => {
                proof {
                    reveal_strlit("\u{f421}");
                }
                "\u{f421}"
            },
            Urgency::Error => {
                proof {
                    reveal_strlit("\u{ea87}");
                }
                "\u{ea87}"
            },
        }
    }
}

/// Which part of the sign-in form takes key presses.
#[derive(Debug, Clone, Copy, PartialEq, Eq, Structural)]
pub enum Focus {
    Input,
    Colors,
}

impl Focus {
    /// The other part of the form.
    pub fn next(self) -> (r: Focus)
        ensures
            r != self,
    {
        match self {
            Focus::Input => Focus::Colors,
            Focus::Colors => Focus::Input,
        }
    }
}

impl Default for Focus {
    fn default() -> (r: Focus)
        ensures
            r == Focus::Input,
    {
        Focus::Input
    }
}

/// Whether the chat view reads commands or text.
#[derive(Debug, Clone, Copy, PartialEq, Eq, Structural)]
pub enum Mode {
    Normal,
    Insert,
}

impl Default for Mode {
    fn default() -> (r: Mode)
        ensures
            r == Mode::Normal,
    {
        Mode::Normal
    }
}

} // verus!
