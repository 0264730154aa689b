//! One-indexed spans into a source text, and the cursor-advance rule.

use vstd::prelude::*;

verus! {

/// A span for diagnostics: a one-indexed line and column, and a length in characters.
#[derive(Debug, Clone, Copy, PartialEq, Eq, Structural)]
pub struct Span {
    /// One-indexed line number.
    pub line: usize,
    /// One-indexed column of the span start.
    pub column: usize,
    /// Number of characters the span goes for.
    pub length: usize,
}

/// Whether `c` is a control character (general category `Cc`).
pub open spec fn is_control_char(c: char) -> bool {
    (c as u32) < 0x20 || (0x7f <= (c as u32) && (c as u32) < 0xa0)
}

/// The position reached from `s` after reading `c`.
pub open spec fn advanced(s: Span, c: char) -> Span {
    if c == '\n' {
        Span { line: (s.line + 1) as usize, column: 1, ..s }
    } else if is_control_char(c) {
        s
    } else {
        Span { column: (s.column + 1) as usize, ..s }
    }
}

/// The span `(1, 1, 1)`.
pub open spec fn default_span() -> Span {
    Span { line: 1, column: 1, length: 1 }
}

impl Default for Span {
    fn default() -> (r: Self)
        ensures
            r == default_span(),
    {
        Span { line: 1, column: 1, length: 1 }
    }
}

impl Span {
    /// The span `(1, 1, 1)`.
    pub fn new() -> (r: Self)
        ensures
            r == default_span(),
    {
        Span { line: 1, column: 1, length: 1 }
    }

    /// Sets the line of the span, lines should be one-indexed.
    pub fn line(self, line: usize) -> (r: Self)
        ensures
            r == (Span { line, ..self }),
    {
        Span { line, ..self }
    }

    /// Sets the column of the span, columns should be one-indexed.
    pub fn column(self, column: usize) -> (r: Self)
        ensures
            r == (Span { column, ..self }),
    {
        Span { column, ..self }
    }

    /// Sets the length of the span.
    pub fn length(self, length: usize) -> (r: Self)
        ensures
            r == (Span { length, ..self }),
    {
        Span { length, ..self }
    }

    /// Advances the position past one character: a newline starts the next line
    /// at column one, any other control character leaves the position where it
    /// is, and every other character moves one column to the right.
    pub fn advance(self, c: char) -> (r: Self)
        requires
            c == '\n' ==> self.line < usize::MAX,
            c != '\n' ==> self.column < usize::MAX,
        ensures
            r == advanced(self, c),
    {
        if c == '\n' {
            Span { line: self.line + 1, column: 1, ..self }
        } else if (c as u32) < 0x20 || (0x7f <= (c as u32) && (c as u32) < 0xa0) {
            self
        } else {
            Span { column: self.column + 1, ..self }
        }
    }
}

} // verus!
