//! The keys of the game.

use vstd::prelude::*;

verus! {

pub const UP: char = 'i';

pub const DOWN: char = 'k';

pub const LEFT: char = 'j';

pub const RIGHT: char = 'l';

pub const DASH_LEFT: char = 'J';

pub const DASH_RIGHT: char = 'L';

pub const ULTIMATE: char = ' ';

pub const QUIT: char = 'q';

pub const RESTART: char = 'r';

/// Renders a single character as a string.
///
/// Calls `<char as ToString>::to_string`; trusted to return the one-character
/// string holding `c`, as std documents for `char`'s `Display`.
#[verifier::external_body]
fn char_to_string(c: char) -> (s: String)
    ensures
        s@ == seq![c],
{
    c.to_string()
}

/// What `label` gives for `key`.
pub open spec fn label_spec(key: char) -> Seq<char> {
    if key == ' ' {
        seq!['s', 'p', 'a', 'c', 'e']
    } else {
        seq![key]
    }
}

/// Human-readable name of a key, for the instructions line.
pub fn label(key: char) -> (s: String)
    ensures
        s@ == label_spec(key),
{
    match key {
        ' ' => {
            let s = "space".to_string();
            proof {
                reveal_strlit("space");
            }
            s
        },
        c => char_to_string(c),
    }
}

} // verus!
