use vstd::prelude::*;
use crate::read_buffer::{INIT, SEARCH, chars_of};
use crate::edit_buffer::EditBuffer;
use crate::edit_buffer::effects::{COMMAND, REPLACE_ONCE, WARP, WILL_DELETE, WILL_CHANGE, WILL_YANK, INSERT, SNIPPET};
use crate::navigator::{Navigator, nav_mark};
use crate::directory::Directory;

verus! {

/// `FromIterator<char>` for `String`: the string of the characters.
#[verifier::external_body]
pub(crate) fn string_of(cs: &Vec<char>) -> (r: String)
    ensures
        r@ == cs@,
{
    cs.iter().collect()
}

/// Appends the characters of `s`.
fn push_str(v: &mut Vec<char>, s: &str)
    ensures
        final(v)@ == old(v)@ + s@,
{
    let mut w = chars_of(s);
    v.append(&mut w);
}

/// The mark of a state in a page's status line.
pub open spec fn state_mark_of(s: Seq<char>) -> char {
    if s == INIT@ {
        '*'
    } else if s == SEARCH@ {
        '/'
    } else if s == COMMAND@ {
        ':'
    } else if s == REPLACE_ONCE@ {
        'r'
    } else if s == WARP@ {
        'w'
    } else if s == WILL_DELETE@ {
        'd'
    } else if s == WILL_CHANGE@ {
        'c'
    } else if s == WILL_YANK@ {
        'y'
    } else if s == INSERT@ {
        'i'
    } else if s == SNIPPET@ {
        's'
    } else {
        '*'
    }
}

/// The mark of a state in a page's status line.
pub fn state_mark(s: &String) -> (r: char)
    ensures
        r == state_mark_of(s@),
{
    if *s == INIT.to_owned() {
        '*'
    } else if *s == SEARCH.to_owned() {
        '/'
    } else if *s == COMMAND.to_owned() {
        ':'
    } else if *s == REPLACE_ONCE.to_owned() {
        'r'
    } else if *s == WARP.to_owned() {
        'w'
    } else if *s == WILL_DELETE.to_owned() {
        'd'
    } else if *s == WILL_CHANGE.to_owned() {
        'c'
    } else if *s == WILL_YANK.to_owned() {
        'y'
    } else if *s == INSERT.to_owned() {
        'i'
    } else if *s == SNIPPET.to_owned() {
        's'
    } else {
        '*'
    }
}

/// The status line of a buffer page: its state, whether it has unsaved
/// edits, and its path.
pub open spec fn buffer_status_text(mark: char, dirty: bool, path: Seq<char>) -> Seq<char> {
    "[Buffer -"@ + seq![mark] + "-] "@ + (if dirty { "[D] "@ } else { Seq::empty() }) + path
}

impl EditBuffer {
    pub fn status(&self) -> (r: String)
        ensures
            r@ == buffer_status_text(
                state_mark_of(self.rb.state@),
                match (self.sync_clock, self.change_log_buffer.clock_spec()) {
                    (_, None) => false,
                    (None, Some(_)) => true,
                    (Some(x), Some(y)) => x < y,
                },
                self.path@,
            ),
    {
        let mut v: Vec<char> = Vec::new();
        push_str(&mut v, "[Buffer -");
        v.push(state_mark(&self.rb.state));
        push_str(&mut v, "-] ");
        let ghost before = v@;
        if self.is_dirty() {
            push_str(&mut v, "[D] ");
        } else {
            assert(v@ == before + Seq::<char>::empty());
        }
        push_str(&mut v, self.path.as_str());
        string_of(&v)
    }
}

impl Navigator {
    /// The status line of the navigator's page.
    pub fn status(&self) -> (r: String)
        ensures
            r@ == "[Navigator -"@ + seq![nav_mark(self.rb.state@)] + "-]"@,
    {
        let mut v: Vec<char> = Vec::new();
        push_str(&mut v, "[Navigator -");
        let m = if self.rb.state == SEARCH.to_owned() { '/' } else { '*' };
        v.push(m);
        push_str(&mut v, "-]");
        string_of(&v)
    }
}

impl Directory {
    /// The status line of a directory page.
    pub fn status(&self) -> (r: String)
        ensures
            r@ == "[DIRECTORY] "@ + self.path@,
    {
        let mut v: Vec<char> = Vec::new();
        push_str(&mut v, "[DIRECTORY] ");
        let mut i: usize = 0;
        let ghost base = v@;
        while i < self.path.len()
            invariant
                i <= self.path@.len(),
                v@ == base + self.path@.take(i as int),
            decreases self.path@.len() - i,
        {
            v.push(self.path[i]);
            i = i + 1;
            assert(v@ =~= base + self.path@.take(i as int));
        }
        assert(self.path@.take(self.path@.len() as int) == self.path@);
        string_of(&v)
    }
}

} // verus!
