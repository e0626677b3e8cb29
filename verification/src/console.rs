//! Keys the monitor reacts to, and what a console input record means.
use vstd::prelude::*;

verus! {

/// The console input record type of a key event.
pub const KEY_EVENT: u16 = 0x0001;

#[derive(Clone, Copy, Debug, PartialEq, Eq, Structural)]
pub enum Key {
    C,
    Q,
    R,
}

/// The key a UTF-16 character stands for, ignoring ASCII case.
pub open spec fn key_of_char(unicode_char: u16) -> Option<Key> {
    if unicode_char == 0x63 || unicode_char == 0x43 {
        Some(Key::C)
    } else if unicode_char == 0x71 || unicode_char == 0x51 {
        Some(Key::Q)
    } else if unicode_char == 0x72 || unicode_char == 0x52 {
        Some(Key::R)
    } else {
        None
    }
}

/// The key that a console input record reports: only key presses count.
pub open spec fn key_of_event(event_type: u16, key_down: i32, unicode_char: u16) -> Option<Key> {
    if event_type != KEY_EVENT || key_down == 0 {
        None
    } else {
        key_of_char(unicode_char)
    }
}

/// The key of an input record, or `None` when the record is to be skipped.
pub fn key_from_event(event_type: u16, key_down: i32, unicode_char: u16) -> (res: Option<Key>)
    ensures
        res == key_of_event(event_type, key_down, unicode_char),
{
    if event_type != KEY_EVENT || key_down == 0 {
        return None;
    }
    if unicode_char == 0x63 || unicode_char == 0x43 {
        Some(Key::C)
    } else if unicode_char == 0x71 || unicode_char == 0x51 {
        Some(Key::Q)
    } else if unicode_char == 0x72 || unicode_char == 0x52 {
        Some(Key::R)
    } else {
        None
    }
}

/// The answer to "continue or reset": `C` continues, `R` resets, anything
/// else leaves the question open.
pub fn resume_choice(key: Option<Key>) -> (res: Option<bool>)
    ensures
        res == (match key {
            Some(Key::C) => Some(true),
            Some(Key::R) => Some(false),
            _ => None,
        }),
{
    match key {
        Some(Key::C) => Some(true),
        Some(Key::R) => Some(false),
        _ => None,
    }
}

/// `u` with an ASCII capital made small, as `char::to_ascii_lowercase` does.
pub open spec fn ascii_lowered(u: u16) -> u16 {
    if 0x41 <= u <= 0x5A {
        (u + 32) as u16
    } else {
        u
    }
}

/// A key press means the same key whatever its ASCII case: it is `C`, `Q` or
/// `R` exactly when the lowered character is `c`, `q` or `r`, and only key
/// presses count.
pub proof fn lemma_key_ignores_case(event_type: u16, key_down: i32, u: u16)
    ensures
        event_type != KEY_EVENT || key_down == 0 ==> key_of_event(event_type, key_down, u) is None,
        event_type == KEY_EVENT && key_down != 0 ==> {
            &&& key_of_event(event_type, key_down, u) == key_of_event(
                event_type,
                key_down,
                ascii_lowered(u),
            )
            &&& (ascii_lowered(u) == 'c' as u16 <==> key_of_event(event_type, key_down, u) == Some(
                Key::C,
            ))
            &&& (ascii_lowered(u) == 'q' as u16 <==> key_of_event(event_type, key_down, u) == Some(
                Key::Q,
            ))
            &&& (ascii_lowered(u) == 'r' as u16 <==> key_of_event(event_type, key_down, u) == Some(
                Key::R,
            ))
            &&& (key_of_event(event_type, key_down, u) is None <==> (ascii_lowered(u) != 'c' as u16
                && ascii_lowered(u) != 'q' as u16 && ascii_lowered(u) != 'r' as u16))
        },
{
}

} // verus!
