//! Turning terminal input into key presses: a paste arrives as one key per
//! character, newlines and carriage returns becoming Enter.

use vstd::prelude::*;
use crate::app::{KeyCode, KeyEvent, NONE};
use crate::text::chars_of;

verus! {

/// The key press that a pasted character stands for.
pub open spec fn paste_key(c: char) -> KeyEvent {
    if c == '\n' || c == '\r' {
        KeyEvent { code: KeyCode::Enter, modifiers: NONE }
    } else {
        KeyEvent { code: KeyCode::Char(c), modifiers: NONE }
    }
}

/// The key presses of a pasted text, one per character, in order.
pub fn paste_keys(text: &str) -> (keys: Vec<KeyEvent>)
    ensures
        keys@ == text@.map_values(|c: char| paste_key(c)),
{
    let v = chars_of(text);
    let mut keys: Vec<KeyEvent> = Vec::new();
    let mut i: usize = 0;
    while i < v.len()
        invariant
            v@ == text@,
            i <= v.len(),
            keys@ == v@.take(i as int).map_values(|c: char| paste_key(c)),
        decreases v.len() - i,
    {
        let c = v[i];
        let key = if c == '\n' || c == '\r' {
            KeyEvent { code: KeyCode::Enter, modifiers: NONE }
        } else {
            KeyEvent { code: KeyCode::Char(c), modifiers: NONE }
        };
        assert(key == paste_key(c));
        let ghost prev = keys@;
        keys.push(key);
        assert(v@.take(i + 1) =~= v@.take(i as int).push(c));
        assert(keys@ =~= prev.push(paste_key(c)));
        assert(keys@ =~= v@.take(i + 1).map_values(|c: char| paste_key(c)));
        i = i + 1;
    }
    assert(v@.take(v.len() as int) =~= v@);
    keys
}

} // verus!
