//! The boolean terminal modes. All default to off except `wrap`.

use vstd::prelude::*;

verus! {

/// The set of terminal modes toggled by CSI `h`/`l` sequences (public and
/// DEC-private) and read by the orchestrator and by key encoding.
#[derive(Clone, Copy, Debug, PartialEq, Eq, Structural)]
pub struct Mode {
    pub keyboard_lock: bool,
    pub insert: bool,
    pub echo: bool,
    pub crlf: bool,
    pub reverse: bool,
    pub wrap: bool,
    pub application_keypad: bool,
    pub application_cursor: bool,
    pub focus: bool,
    pub bracketed_paste: bool,
    pub blink: bool,
}

impl Mode {
    /// The startup state: wrap on, everything else off.
    pub open spec fn default_spec() -> Mode {
        Mode {
            keyboard_lock: false,
            insert: false,
            echo: false,
            crlf: false,
            reverse: false,
            wrap: true,
            application_keypad: false,
            application_cursor: false,
            focus: false,
            bracketed_paste: false,
            blink: false,
        }
    }
}

impl Default for Mode {
    fn default() -> (m: Mode)
        ensures
            m == Mode::default_spec(),
    {
        Mode {
            keyboard_lock: false,
            insert: false,
            echo: false,
            crlf: false,
            reverse: false,
            wrap: true,
            application_keypad: false,
            application_cursor: false,
            focus: false,
            bracketed_paste: false,
            blink: false,
        }
    }
}

} // verus!
