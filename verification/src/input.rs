//! A one-line editable text field.

use vstd::prelude::*;

use crate::text::{from_chars, to_chars};

verus! {

/// A simple char-indexed editable buffer. Enough for a task name or a result note.
#[derive(Debug)]
pub struct TextInput {
    pub value: String,
    /// Cursor position in characters, not bytes.
    pub cursor: usize,
}

impl Clone for TextInput {
    fn clone(&self) -> (r: Self)
        ensures
            r == *self,
    {
        TextInput { value: self.value.clone(), cursor: self.cursor }
    }
}

impl Default for TextInput {
    fn default() -> (r: Self)
        ensures
            r.value@ == Seq::<char>::empty(),
            r.cursor == 0,
            r.wf(),
    {
        TextInput { value: String::new(), cursor: 0 }
    }
}

/// A text with one character put in at a place, or at the end when the place is
/// past it.
pub open spec fn put_in(s: Seq<char>, at: int, c: char) -> Seq<char> {
    if at <= s.len() {
        s.insert(at, c)
    } else {
        s.push(c)
    }
}

/// A text without the character at a place; the text itself when there is none.
pub open spec fn taken_out(s: Seq<char>, at: int) -> Seq<char> {
    if 0 <= at < s.len() {
        s.remove(at)
    } else {
        s
    }
}

impl TextInput {
    /// The cursor stands in the text or right behind it.
    pub open spec fn wf(&self) -> bool {
        self.cursor <= self.value@.len()
    }

    pub fn new(initial: &str) -> (r: Self)
        ensures
            r.value@ == initial@,
            r.cursor == initial@.len(),
            r.wf(),
    {
        TextInput { value: initial.to_owned(), cursor: initial.unicode_len() }
    }

    /// Types a character at the cursor, or at the end when the cursor is past it.
    pub fn insert(&mut self, c: char)
        requires
            old(self).wf() || old(self).cursor < usize::MAX,
        ensures
            final(self).value@ == put_in(old(self).value@, old(self).cursor as int, c),
            final(self).cursor == old(self).cursor + 1,
            old(self).wf() ==> final(self).wf(),
    {
        let mut v = to_chars(self.value.as_str());
        if self.cursor <= v.len() {
            v.insert(self.cursor, c);
        } else {
            v.push(c);
        }
        let n: usize = v.len();
        self.value = from_chars(&v, 0, n);
        assert(self.value@ =~= v@);
        self.cursor = self.cursor + 1;
    }

    /// Takes out the character before the cursor, if there is one.
    pub fn backspace(&mut self)
        ensures
            old(self).cursor == 0 ==> *final(self) == *old(self),
            old(self).cursor > 0 ==> final(self).value@ == taken_out(
                old(self).value@,
                old(self).cursor - 1,
            ) && final(self).cursor == old(self).cursor - 1,
            old(self).wf() ==> final(self).wf(),
    {
        if self.cursor == 0 {
            return;
        }
        let mut v = to_chars(self.value.as_str());
        if self.cursor - 1 < v.len() {
            v.remove(self.cursor - 1);
        }
        let n: usize = v.len();
        self.value = from_chars(&v, 0, n);
        assert(self.value@ =~= v@);
        self.cursor = self.cursor - 1;
    }

    pub fn left(&mut self)
        ensures
            final(self).value == old(self).value,
            final(self).cursor == if old(self).cursor == 0 {
                0
            } else {
                old(self).cursor - 1
            },
            old(self).wf() ==> final(self).wf(),
    {
        if self.cursor > 0 {
            self.cursor = self.cursor - 1;
        }
    }

    pub fn right(&mut self)
        ensures
            final(self).value == old(self).value,
            final(self).cursor == if old(self).cursor < old(self).value@.len() {
                old(self).cursor + 1
            } else {
                old(self).value@.len() as int
            },
            final(self).wf(),
    {
        let n: usize = self.value.as_str().unicode_len();
        if self.cursor < n {
            self.cursor = self.cursor + 1;
        } else {
            self.cursor = n;
        }
    }
}

/// Backspace takes back what was just typed: the text and the cursor are as
/// they were.
pub proof fn law_backspace_undoes_typing(s: Seq<char>, at: int, c: char)
    requires
        0 <= at <= s.len(),
    ensures
        taken_out(put_in(s, at, c), (at + 1) - 1) == s,
        put_in(s, at, c).len() == s.len() + 1,
        put_in(s, at, c)[at] == c,
{
    assert(s.insert(at, c).remove(at) =~= s);
}

} // verus!
