//! The characters of a source text, read one at a time.

use vstd::prelude::*;

verus! {

/// The characters of `s`, in order.
pub fn chars_of(s: &str) -> (r: Vec<char>)
    ensures
        r@ == s@,
{
    let mut out: Vec<char> = Vec::new();
    for c in it: s.chars()
        invariant
            out@ == it.seq().take(it.index() as int),
            it.seq() == s@,
    {
        out.push(c);
    }
    out
}

/// The characters of a source text and the index of the next one to read.
#[derive(Debug)]
pub struct CharStream {
    /// The characters of the text.
    pub chars: Vec<char>,
    /// The index of the next character to read.
    pub index: usize,
}

impl CharStream {
    /// The index lies within the text, and the text is no longer than a
    /// `str` can be: an allocation holds at most `isize::MAX` bytes, and every
    /// character takes at least one of them.
    pub open spec fn wf(&self) -> bool {
        self.index <= self.chars@.len() && self.chars@.len() <= isize::MAX
    }

    /// A stream at the first character of `source`.
    pub fn new(source: &str) -> (r: Self)
        requires
            source@.len() <= isize::MAX,
        ensures
            r.chars@ == source@,
            r.index == 0,
            r.wf(),
    {
        CharStream { chars: chars_of(source), index: 0 }
    }

    /// The next character, without consuming it.
    pub fn peek(&self) -> (r: Option<char>)
        requires
            self.wf(),
        ensures
            r == (if self.index < self.chars@.len() {
                Some(self.chars@[self.index as int])
            } else {
                None
            }),
    {
        if self.index < self.chars.len() {
            Some(self.chars[self.index])
        } else {
            None
        }
    }

    /// Consumes the next character if it is `c`.
    pub fn next_if_eq(&mut self, c: char) -> (r: Option<char>)
        requires
            old(self).wf(),
        ensures
            final(self).chars@ == old(self).chars@,
            final(self).wf(),
            ({
                let s = old(self).chars@;
                let i = old(self).index as int;
                if i < s.len() && s[i] == c {
                    r == Some(c) && final(self).index == i + 1
                } else {
                    r is None && final(self).index == i
                }
            }),
    {
        if self.index < self.chars.len() && self.chars[self.index] == c {
            self.index = self.index + 1;
            Some(c)
        } else {
            None
        }
    }

    /// Consumes and returns the next character, if there is one.
    pub fn next(&mut self) -> (r: Option<char>)
        requires
            old(self).wf(),
        ensures
            final(self).chars@ == old(self).chars@,
            final(self).wf(),
            ({
                let s = old(self).chars@;
                let i = old(self).index as int;
                if i < s.len() {
                    r == Some(s[i]) && final(self).index == i + 1
                } else {
                    r is None && final(self).index == i
                }
            }),
    {
        if self.index < self.chars.len() {
            let c = self.chars[self.index];
            self.index = self.index + 1;
            Some(c)
        } else {
            None
        }
    }
}

} // verus!
