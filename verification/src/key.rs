//! Logical key events and their encoding to tty bytes. The encoding respects
//! the application-cursor, CRLF and bracketed-paste modes; when the keyboard
//! is locked nothing is emitted.

use vstd::prelude::*;
use crate::mode::Mode;
use crate::text::{bytes_of, str_bytes};

verus! {

/// A key event handed in by the window layer.
#[derive(Clone, Debug)]
pub enum Key {
    Char(String),
    Enter,
    Tab,
    Backspace,
    Escape,
    Up,
    Down,
    Right,
    Left,
    Paste(String),
}

pub ghost enum KeyV {
    Char(Seq<char>),
    Enter,
    Tab,
    Backspace,
    Escape,
    Up,
    Down,
    Right,
    Left,
    Paste(Seq<char>),
}

impl View for Key {
    type V = KeyV;

    open spec fn view(&self) -> KeyV {
        match self {
            Key::Char(s) => KeyV::Char(s@),
            Key::Enter => KeyV::Enter,
            Key::Tab => KeyV::Tab,
            Key::Backspace => KeyV::Backspace,
            Key::Escape => KeyV::Escape,
            Key::Up => KeyV::Up,
            Key::Down => KeyV::Down,
            Key::Right => KeyV::Right,
            Key::Left => KeyV::Left,
            Key::Paste(s) => KeyV::Paste(s@),
        }
    }
}

/// The bytes an arrow key sends: SS3 in application-cursor mode, CSI else.
pub open spec fn arrow_bytes(m: Mode, fin: u8) -> Seq<u8> {
    if m.application_cursor {
        seq![0x1bu8, 0x4fu8, fin]
    } else {
        seq![0x1bu8, 0x5bu8, fin]
    }
}

/// The bytes a key event sends under the given modes. A locked keyboard
/// sends nothing; Enter honors CRLF; pastes are framed when bracketed
/// paste is on.
pub open spec fn spec_key_bytes(k: KeyV, m: Mode) -> Seq<u8> {
    if m.keyboard_lock {
        Seq::empty()
    } else {
        match k {
            KeyV::Char(s) => bytes_of(s),
            KeyV::Enter => if m.crlf {
                seq![0x0du8, 0x0au8]
            } else {
                seq![0x0du8]
            },
            KeyV::Tab => seq![0x09u8],
            KeyV::Backspace => seq![0x7fu8],
            KeyV::Escape => seq![0x1bu8],
            KeyV::Up => arrow_bytes(m, 0x41),
            KeyV::Down => arrow_bytes(m, 0x42),
            KeyV::Right => arrow_bytes(m, 0x43),
            KeyV::Left => arrow_bytes(m, 0x44),
            KeyV::Paste(s) => if m.bracketed_paste {
                seq![0x1bu8, 0x5bu8, 0x32u8, 0x30u8, 0x30u8, 0x7eu8].add(bytes_of(s)).add(
                    seq![0x1bu8, 0x5bu8, 0x32u8, 0x30u8, 0x31u8, 0x7eu8],
                )
            } else {
                bytes_of(s)
            },
        }
    }
}

/// Encodes one key event to the bytes owed to the tty.
pub fn encode_key(key: &Key, mode: Mode) -> (r: Vec<u8>)
    ensures
        r@ == spec_key_bytes(key@, mode),
{
    if mode.keyboard_lock {
        let r: Vec<u8> = Vec::new();
        assert(r@ =~= spec_key_bytes(key@, mode));
        return r;
    }
    let r: Vec<u8> = match key {
        Key::Char(s) => str_bytes(s.as_str()),
        Key::Enter => {
            if mode.crlf {
                vec![0x0d, 0x0a]
            } else {
                vec![0x0d]
            }
        },
        Key::Tab => vec![0x09],
        Key::Backspace => vec![0x7f],
        Key::Escape => vec![0x1b],
        Key::Up => arrow_exec(mode, 0x41),
        Key::Down => arrow_exec(mode, 0x42),
        Key::Right => arrow_exec(mode, 0x43),
        Key::Left => arrow_exec(mode, 0x44),
        Key::Paste(s) => {
            let body = str_bytes(s.as_str());
            if mode.bracketed_paste {
                let mut out: Vec<u8> = vec![0x1b, 0x5b, 0x32, 0x30, 0x30, 0x7e];
                let mut i: usize = 0;
                while i < body.len()
                    invariant
                        i <= body@.len(),
                        out@ == seq![0x1bu8, 0x5bu8, 0x32u8, 0x30u8, 0x30u8, 0x7eu8].add(
                            body@.subrange(0, i as int),
                        ),
                    decreases body@.len() - i,
                {
                    out.push(body[i]);
                    i = i + 1;
                    assert(out@ =~= seq![0x1bu8, 0x5bu8, 0x32u8, 0x30u8, 0x30u8, 0x7eu8].add(
                        body@.subrange(0, i as int),
                    ));
                }
                out.push(0x1b);
                out.push(0x5b);
                out.push(0x32);
                out.push(0x30);
                out.push(0x31);
                out.push(0x7e);
                assert(out@ =~= seq![0x1bu8, 0x5bu8, 0x32u8, 0x30u8, 0x30u8, 0x7eu8].add(
                    body@,
                ).add(seq![0x1bu8, 0x5bu8, 0x32u8, 0x30u8, 0x31u8, 0x7eu8]));
                out
            } else {
                body
            }
        },
    };
    assert(r@ == spec_key_bytes(key@, mode));
    r
}

fn arrow_exec(mode: Mode, fin: u8) -> (r: Vec<u8>)
    ensures
        r@ == arrow_bytes(mode, fin),
{
    let r: Vec<u8> = if mode.application_cursor {
        vec![0x1b, 0x4f, fin]
    } else {
        vec![0x1b, 0x5b, fin]
    };
    assert(r@ =~= arrow_bytes(mode, fin));
    r
}

} // verus!
