//! The fixed key set delivered by the event source, the shift-sensitive
//! key-to-character table, and the bracketed tokens contributed by named
//! control keys.

use vstd::prelude::*;
use vstd::string::*;

verus! {

/// Identifier of a key in the event stream. `Other` stands for every key
/// the capture logic does not map.
#[derive(Clone, Copy, PartialEq, Eq, Structural, Debug)]
pub enum Key {
    KeyA,
    KeyB,
    KeyC,
    KeyD,
    KeyE,
    KeyF,
    KeyG,
    KeyH,
    KeyI,
    KeyJ,
    KeyK,
    KeyL,
    KeyM,
    KeyN,
    KeyO,
    KeyP,
    KeyQ,
    KeyR,
    KeyS,
    KeyT,
    KeyU,
    KeyV,
    KeyW,
    KeyX,
    KeyY,
    KeyZ,
    Num0,
    Num1,
    Num2,
    Num3,
    Num4,
    Num5,
    Num6,
    Num7,
    Num8,
    Num9,
    Space,
    Minus,
    Equal,
    LeftBracket,
    RightBracket,
    BackSlash,
    SemiColon,
    Quote,
    Comma,
    Dot,
    Slash,
    BackQuote,
    Return,
    Tab,
    Backspace,
    Delete,
    Escape,
    UpArrow,
    DownArrow,
    LeftArrow,
    RightArrow,
    ShiftLeft,
    ShiftRight,
    Other,
}

/// Shift-class modifiers: they toggle shift state and never contribute.
pub open spec fn is_shift(k: Key) -> bool {
    k == Key::ShiftLeft || k == Key::ShiftRight
}

/// Decides `is_shift`.
pub fn is_shift_key(k: Key) -> (r: bool)
    ensures
        r == is_shift(k),
{
    match k {
        Key::ShiftLeft => true,
        Key::ShiftRight => true,
        _ => false,
    }
}

/// The printable character contributed by a key, with the shifted variant
/// selected while shift is held; `None` for unmapped keys.
pub open spec fn key_char(k: Key, shift: bool) -> Option<char> {
    match k {
        Key::KeyA => Some(if shift { 'A' } else { 'a' }),
        Key::KeyB => Some(if shift { 'B' } else { 'b' }),
        Key::KeyC => Some(if shift { 'C' } else { 'c' }),
        Key::KeyD => Some(if shift { 'D' } else { 'd' }),
        Key::KeyE => Some(if shift { 'E' } else { 'e' }),
        Key::KeyF => Some(if shift { 'F' } else { 'f' }),
        Key::KeyG => Some(if shift { 'G' } else { 'g' }),
        Key::KeyH => Some(if shift { 'H' } else { 'h' }),
        Key::KeyI => Some(if shift { 'I' } else { 'i' }),
        Key::KeyJ => Some(if shift { 'J' } else { 'j' }),
        Key::KeyK => Some(if shift { 'K' } else { 'k' }),
        Key::KeyL => Some(if shift { 'L' } else { 'l' }),
        Key::KeyM => Some(if shift { 'M' } else { 'm' }),
        Key::KeyN => Some(if shift { 'N' } else { 'n' }),
        Key::KeyO => Some(if shift { 'O' } else { 'o' }),
        Key::KeyP => Some(if shift { 'P' } else { 'p' }),
        Key::KeyQ => Some(if shift { 'Q' } else { 'q' }),
        Key::KeyR => Some(if shift { 'R' } else { 'r' }),
        Key::KeyS => Some(if shift { 'S' } else { 's' }),
        Key::KeyT => Some(if shift { 'T' } else { 't' }),
        Key::KeyU => Some(if shift { 'U' } else { 'u' }),
        Key::KeyV => Some(if shift { 'V' } else { 'v' }),
        Key::KeyW => Some(if shift { 'W' } else { 'w' }),
        Key::KeyX => Some(if shift { 'X' } else { 'x' }),
        Key::KeyY => Some(if shift { 'Y' } else { 'y' }),
        Key::KeyZ => Some(if shift { 'Z' } else { 'z' }),
        Key::Num0 => Some(if shift { ')' } else { '0' }),
        Key::Num1 => Some(if shift { '!' } else { '1' }),
        Key::Num2 => Some(if shift { '@' } else { '2' }),
        Key::Num3 => Some(if shift { '#' } else { '3' }),
        Key::Num4 => Some(if shift { '$' } else { '4' }),
        Key::Num5 => Some(if shift { '%' } else { '5' }),
        Key::Num6 => Some(if shift { '^' } else { '6' }),
        Key::Num7 => Some(if shift { '&' } else { '7' }),
        Key::Num8 => Some(if shift { '*' } else { '8' }),
        Key::Num9 => Some(if shift { '(' } else { '9' }),
        Key::Space => Some(' '),
        Key::Minus => Some(if shift { '_' } else { '-' }),
        Key::Equal => Some(if shift { '+' } else { '=' }),
        Key::LeftBracket => Some(if shift { '{' } else { '[' }),
        Key::RightBracket => Some(if shift { '}' } else { ']' }),
        Key::BackSlash => Some(if shift { '|' } else { '\\' }),
        Key::SemiColon => Some(if shift { ':' } else { ';' }),
        Key::Quote => Some(if shift { '"' } else { '\'' }),
        Key::Comma => Some(if shift { '<' } else { ',' }),
        Key::Dot => Some(if shift { '>' } else { '.' }),
        Key::Slash => Some(if shift { '?' } else { '/' }),
        Key::BackQuote => Some(if shift { '~' } else { '`' }),
        _ => None,
    }
}

/// Decides `key_char`: the static printable-key lookup table.
pub fn key_to_char(k: Key, shift: bool) -> (r: Option<char>)
    ensures
        r == key_char(k, shift),
{
    match k {
        Key::KeyA => Some(if shift { 'A' } else { 'a' }),
        Key::KeyB => Some(if shift { 'B' } else { 'b' }),
        Key::KeyC => Some(if shift { 'C' } else { 'c' }),
        Key::KeyD => Some(if shift { 'D' } else { 'd' }),
        Key::KeyE => Some(if shift { 'E' } else { 'e' }),
        Key::KeyF => Some(if shift { 'F' } else { 'f' }),
        Key::KeyG => Some(if shift { 'G' } else { 'g' }),
        Key::KeyH => Some(if shift { 'H' } else { 'h' }),
        Key::KeyI => Some(if shift { 'I' } else { 'i' }),
        Key::KeyJ => Some(if shift { 'J' } else { 'j' }),
        Key::KeyK => Some(if shift { 'K' } else { 'k' }),
        Key::KeyL => Some(if shift { 'L' } else { 'l' }),
        Key::KeyM => Some(if shift { 'M' } else { 'm' }),
        Key::KeyN => Some(if shift { 'N' } else { 'n' }),
        Key::KeyO => Some(if shift { 'O' } else { 'o' }),
        Key::KeyP => Some(if shift { 'P' } else { 'p' }),
        Key::KeyQ => Some(if shift { 'Q' } else { 'q' }),
        Key::KeyR => Some(if shift { 'R' } else { 'r' }),
        Key::KeyS => Some(if shift { 'S' } else { 's' }),
        Key::KeyT => Some(if shift { 'T' } else { 't' }),
        Key::KeyU => Some(if shift { 'U' } else { 'u' }),
        Key::KeyV => Some(if shift { 'V' } else { 'v' }),
        Key::KeyW => Some(if shift { 'W' } else { 'w' }),
        Key::KeyX => Some(if shift { 'X' } else { 'x' }),
        Key::KeyY => Some(if shift { 'Y' } else { 'y' }),
        Key::KeyZ => Some(if shift { 'Z' } else { 'z' }),
        Key::Num0 => Some(if shift { ')' } else { '0' }),
        Key::Num1 => Some(if shift { '!' } else { '1' }),
        Key::Num2 => Some(if shift { '@' } else { '2' }),
        Key::Num3 => Some(if shift { '#' } else { '3' }),
        Key::Num4 => Some(if shift { '$' } else { '4' }),
        Key::Num5 => Some(if shift { '%' } else { '5' }),
        Key::Num6 => Some(if shift { '^' } else { '6' }),
        Key::Num7 => Some(if shift { '&' } else { '7' }),
        Key::Num8 => Some(if shift { '*' } else { '8' }),
        Key::Num9 => Some(if shift { '(' } else { '9' }),
        Key::Space => Some(' '),
        Key::Minus => Some(if shift { '_' } else { '-' }),
        Key::Equal => Some(if shift { '+' } else { '=' }),
        Key::LeftBracket => Some(if shift { '{' } else { '[' }),
        Key::RightBracket => Some(if shift { '}' } else { ']' }),
        Key::BackSlash => Some(if shift { '|' } else { '\\' }),
        Key::SemiColon => Some(if shift { ':' } else { ';' }),
        Key::Quote => Some(if shift { '"' } else { '\'' }),
        Key::Comma => Some(if shift { '<' } else { ',' }),
        Key::Dot => Some(if shift { '>' } else { '.' }),
        Key::Slash => Some(if shift { '?' } else { '/' }),
        Key::BackQuote => Some(if shift { '~' } else { '`' }),
        _ => None,
    }
}

/// The bracketed token contributed by a named control key.
pub open spec fn key_token(k: Key) -> Option<Seq<char>> {
    match k {
        Key::Return => Some("[Enter]"@),
        Key::Tab => Some("[Tab]"@),
        Key::Backspace => Some("[Backspace]"@),
        Key::Delete => Some("[Delete]"@),
        Key::Escape => Some("[Esc]"@),
        Key::UpArrow => Some("[Up]"@),
        Key::DownArrow => Some("[Down]"@),
        Key::LeftArrow => Some("[Left]"@),
        Key::RightArrow => Some("[Right]"@),
        _ => None,
    }
}

/// What a key press adds to the session text: a control token, a mapped
/// character, or nothing. Each `Some` counts as one key action.
pub open spec fn key_contrib(k: Key, shift: bool) -> Option<Seq<char>> {
    match key_token(k) {
        Some(t) => Some(t),
        None => match key_char(k, shift) {
            Some(c) => Some(seq![c]),
            None => None,
        },
    }
}

/// Appends the key's contribution to `buf`; reports whether one was made.
pub fn append_contribution(buf: &mut String, k: Key, shift: bool) -> (added: bool)
    ensures
        match key_contrib(k, shift) {
            Some(t) => added && final(buf)@ == old(buf)@ + t,
            None => !added && final(buf)@ == old(buf)@,
        },
{
    match k {
        Key::Return => {
            buf.append("[Enter]");
            true
        },
        Key::Tab => {
            buf.append("[Tab]");
            true
        },
        Key::Backspace => {
            buf.append("[Backspace]");
            true
        },
        Key::Delete => {
            buf.append("[Delete]");
            true
        },
        Key::Escape => {
            buf.append("[Esc]");
            true
        },
        Key::UpArrow => {
            buf.append("[Up]");
            true
        },
        Key::DownArrow => {
            buf.append("[Down]");
            true
        },
        Key::LeftArrow => {
            buf.append("[Left]");
            true
        },
        Key::RightArrow => {
            buf.append("[Right]");
            true
        },
        _ => {
            match key_to_char(k, shift) {
                Some(c) => {
                    buf.push(c);
                    proof {
                        assert(buf@ =~= old(buf)@ + seq![c]);
                    }
                    true
                },
                None => false,
            }
        },
    }
}

} // verus!
