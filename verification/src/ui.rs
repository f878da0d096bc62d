//! The terminal front end's state and events, and the mapping from a raw
//! key code to an event. Reading the key is the terminal library's work;
//! deciding what it means happens here.

use vstd::prelude::*;

verus! {

/// What the terminal front end is doing.
pub enum State {
    Idle,
    Search,
}

/// What a key press means.
pub enum Event {
    Key(char),
    StartSearch,
    Escape,
    Quit,
}

/// Maps a raw key code to an event. The codes for the exit and F1 keys
/// belong to the terminal library and are passed in; a slash starts a
/// search, and any other code is a plain key, read as a byte.
pub fn classify_key(ch: i32, key_exit: i32, key_f1: i32) -> (r: Event)
    ensures
        ch == key_exit ==> r is Escape,
        ch != key_exit && ch == key_f1 ==> r is Quit,
        ch != key_exit && ch != key_f1 && ch == '/' as i32 ==> r is StartSearch,
        ch != key_exit && ch != key_f1 && ch != '/' as i32 ==> {
            &&& r is Key
            &&& (0 <= ch < 256 ==> r == Event::Key(((ch as u8) as char)))
        },
{
    if ch == key_exit {
        Event::Escape
    } else if ch == key_f1 {
        Event::Quit
    } else if ch == '/' as i32 {
        Event::StartSearch
    } else {
        Event::Key((#[verifier::truncate] (ch as u8)) as char)
    }
}

} // verus!
