use vstd::prelude::*;
use crate::Key;
use crate::read_buffer::chars_of;

verus! {

/// The key that a line of a key file names: `EOL` is the enter key, a line
/// starting with `C` is the control key of its third character (as in
/// `C-x`), any other line the key of its first character.
pub open spec fn key_of_line(s: Seq<char>) -> Key {
    if s == "EOL"@ {
        Key::Char('\n')
    } else if s[0] == 'C' {
        Key::Ctrl(s[2])
    } else {
        Key::Char(s[0])
    }
}

/// The key that the line `s` of a key file names.
pub fn to_term_key(s: &str) -> (r: Key)
    requires
        s@.len() > 0,
        s@[0] == 'C' ==> s@.len() >= 3,
    ensures
        r == key_of_line(s@),
{
    proof {
        reveal_strlit("EOL");
    }
    let v = chars_of(s);
    if v.len() == 3 && v[0] == 'E' && v[1] == 'O' && v[2] == 'L' {
        assert(v@ =~= "EOL"@);
        Key::Char('\n')
    } else if v[0] == 'C' {
        assert(v@ != "EOL"@);
        Key::Ctrl(v[2])
    } else {
        assert(v@ != "EOL"@);
        Key::Char(v[0])
    }
}

} // verus!
