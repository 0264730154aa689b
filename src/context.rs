//! The source lines shown around a span, clipped to a fixed width.

use vstd::prelude::*;
use crate::span::Span;
use crate::source::chars_of;
use crate::text::string_from;

verus! {

/// The widest a context line is shown.
pub const MAX_WIDTH: usize = 100;

/// The index of the first newline at or after `i`, or the length of `s`.
pub open spec fn line_break(s: Seq<char>, i: int) -> int
    decreases s.len() - i,
{
    if 0 <= i < s.len() && s[i] != '\n' {
        line_break(s, i + 1)
    } else {
        i
    }
}

pub proof fn lemma_line_break_bounds(s: Seq<char>, i: int)
    requires
        0 <= i <= s.len(),
    ensures
        i <= line_break(s, i) <= s.len(),
        line_break(s, i) < s.len() ==> s[line_break(s, i)] == '\n',
        forall|k: int| i <= k < line_break(s, i) ==> s[k] != '\n',
    decreases s.len() - i,
{
    if 0 <= i < s.len() && s[i] != '\n' {
        lemma_line_break_bounds(s, i + 1);
    }
}

/// The text of the line from `i` to the line break at `end`: a carriage
/// return right before a newline is not part of it.
pub open spec fn line_text(s: Seq<char>, i: int, end: int) -> Seq<char> {
    if end < s.len() && i < end && s[end - 1] == '\r' {
        s.subrange(i, end - 1)
    } else {
        s.subrange(i, end)
    }
}

/// The lines of `s` from index `i` on. Lines end at a newline; a newline at
/// the very end starts no further line.
pub open spec fn lines_from(s: Seq<char>, i: int) -> Seq<Seq<char>>
    decreases s.len() - i,
{
    if 0 <= i < s.len() {
        let end = line_break(s, i);
        proof {
            lemma_line_break_bounds(s, i);
        }
        if end < s.len() {
            seq![line_text(s, i, end)] + lines_from(s, end + 1)
        } else {
            seq![line_text(s, i, end)]
        }
    } else {
        Seq::empty()
    }
}

/// The lines of a source text.
pub open spec fn source_lines(s: Seq<char>) -> Seq<Seq<char>> {
    lines_from(s, 0)
}

/// The offset of the span's start within its line (zero-based).
pub open spec fn span_offset(span: Span) -> int {
    if span.column >= 1 { span.column - 1 } else { 0 }
}

/// Where the shown window of each line starts: as far left as keeps the span's
/// start in view with its length (up to the full width) after it, never below zero.
pub open spec fn window_start(span: Span) -> int {
    let visible = if span.length < MAX_WIDTH { span.length as int } else { MAX_WIDTH as int };
    let start = span_offset(span) - (MAX_WIDTH - visible);
    if start > 0 { start } else { 0 }
}

/// The part of `line` in the window starting at `start`.
pub open spec fn clipped(line: Seq<char>, start: int) -> Seq<char> {
    if start < line.len() {
        line.subrange(start, if start + MAX_WIDTH < line.len() { start + MAX_WIDTH } else { line.len() as int })
    } else {
        Seq::empty()
    }
}

/// The clipped line at zero-based `index`, if the text has such a line.
pub open spec fn context_entry(lines: Seq<Seq<char>>, index: int, start: int) -> Seq<Seq<char>> {
    if 0 <= index < lines.len() {
        seq![clipped(lines[index], start)]
    } else {
        Seq::empty()
    }
}

/// The up to three lines ending at the span's line, oldest first, each
/// clipped; none if the span's line is not a line of the text.
pub open spec fn context_lines(s: Seq<char>, span: Span) -> Seq<Seq<char>> {
    let lines = source_lines(s);
    let start = window_start(span);
    if span.line > lines.len() {
        Seq::empty()
    } else {
        context_entry(lines, span.line - 3, start) + context_entry(lines, span.line - 2, start)
            + context_entry(lines, span.line - 1, start)
    }
}

/// The views of a sequence of strings.
pub open spec fn string_views(v: Seq<String>) -> Seq<Seq<char>> {
    v.map_values(|l: String| l@)
}

/// Context for a diagnostic.
#[derive(Debug, Clone)]
pub struct Context {
    /// Sequential lines of the source where the last one holds the span; each
    /// is at most [`MAX_WIDTH`] characters wide.
    pub context: Vec<String>,
    /// The span of the context relevant to the diagnostic.
    pub span: Span,
    /// The label for the span.
    pub label: Option<String>,
    /// How far into the shown lines the span starts.
    pub span_indent: usize,
}

/// The lines of `chars`, one vector of characters each.
pub(crate) fn split_lines(chars: &Vec<char>) -> (r: Vec<Vec<char>>)
    ensures
        r@.map_values(|l: Vec<char>| l@) == source_lines(chars@),
{
    let ghost s = chars@;
    let mut lines: Vec<Vec<char>> = Vec::new();
    let mut i: usize = 0;
    while i < chars.len()
        invariant
            s == chars@,
            i <= s.len(),
            lines@.map_values(|l: Vec<char>| l@) + lines_from(s, i as int) == source_lines(s),
        decreases s.len() - i,
    {
        let mut end = i;
        while end < chars.len() && chars[end] != '\n'
            invariant
                s == chars@,
                i <= end <= s.len(),
                line_break(s, i as int) == line_break(s, end as int),
            decreases s.len() - end,
        {
            end = end + 1;
        }
        proof {
            lemma_line_break_bounds(s, i as int);
        }
        let text_end = if end < chars.len() && i < end && chars[end - 1] == '\r' {
            end - 1
        } else {
            end
        };
        let mut line: Vec<char> = Vec::new();
        let mut k = i;
        while k < text_end
            invariant
                s == chars@,
                i <= k <= text_end,
                text_end <= s.len(),
                line@ == s.subrange(i as int, k as int),
            decreases text_end - k,
        {
            line.push(chars[k]);
            k = k + 1;
            assert(line@ =~= s.subrange(i as int, k as int));
        }
        let ghost before = lines@.map_values(|l: Vec<char>| l@);
        lines.push(line);
        assert(lines@.map_values(|l: Vec<char>| l@) =~= before.push(line_text(s, i as int, end as int)));
        if end >= chars.len() {
            assert(lines_from(s, i as int) == seq![line_text(s, i as int, end as int)]);
            assert(before + lines_from(s, i as int) =~= before.push(line_text(s, i as int, end as int)));
            return lines;
        }
        assert(lines_from(s, i as int) == seq![line_text(s, i as int, end as int)] + lines_from(s, end + 1));
        assert(before + lines_from(s, i as int) =~= before.push(line_text(s, i as int, end as int))
            + lines_from(s, end + 1));
        i = end + 1;
    }
    assert(lines_from(s, i as int) =~= Seq::<Seq<char>>::empty());
    assert(lines@.map_values(|l: Vec<char>| l@) =~= lines@.map_values(|l: Vec<char>| l@) + lines_from(
        s,
        i as int,
    ));
    lines
}

/// Appends the clipped line `line - back` (one-based `line`), if the text has it.
fn push_entry(context: &mut Vec<String>, lines: &Vec<Vec<char>>, line: usize, back: usize, start: usize)
    requires
        forall|k: int| 0 <= k < old(context)@.len() ==> (#[trigger] old(context)@[k])@.len() <= MAX_WIDTH,
    ensures
        string_views(final(context)@) == string_views(old(context)@) + context_entry(
            lines@.map_values(|l: Vec<char>| l@),
            line - back,
            start as int,
        ),
        final(context)@.len() <= old(context)@.len() + 1,
        forall|k: int| 0 <= k < final(context)@.len() ==> (#[trigger] final(context)@[k])@.len() <= MAX_WIDTH,
{
    let ghost models = lines@.map_values(|l: Vec<char>| l@);
    let ghost before = string_views(context@);
    if line >= back && line - back < lines.len() {
        let text = &lines[line - back];
        assert(text@ == models[line - back]);
        let clip = if start < text.len() {
            let end = if text.len() - start > MAX_WIDTH {
                start + MAX_WIDTH
            } else {
                text.len()
            };
            string_from(text, start, end)
        } else {
            String::new()
        };
        context.push(clip);
        assert(string_views(context@) =~= before + seq![clipped(models[line - back], start as int)]);
    } else {
        assert(string_views(context@) =~= before + Seq::<Seq<char>>::empty());
    }
}

impl Context {
    /// Create the context for a diagnostic from a span and the source file:
    /// the span's line and up to two lines before it, each clipped to the
    /// window that keeps the span in view.
    pub fn new(source: &str, span: Span) -> (r: Self)
        ensures
            string_views(r.context@) == context_lines(source@, span),
            r.span == span,
            r.label is None,
            r.span_indent == span_offset(span) - window_start(span),
            r.context@.len() <= 3,
            forall|i: int| 0 <= i < r.context@.len() ==> (#[trigger] r.context@[i])@.len() <= MAX_WIDTH,
            r.span_indent <= MAX_WIDTH,
    {
        let context_start: usize = if span.column >= 1 { span.column - 1 } else { 0 };
        let visible: usize = if span.length < MAX_WIDTH { span.length } else { MAX_WIDTH };
        let span_start: usize = if context_start > MAX_WIDTH - visible {
            context_start - (MAX_WIDTH - visible)
        } else {
            0
        };
        let chars = chars_of(source);
        let lines = split_lines(&chars);
        let mut context: Vec<String> = Vec::new();
        if span.line <= lines.len() {
            push_entry(&mut context, &lines, span.line, 3, span_start);
            push_entry(&mut context, &lines, span.line, 2, span_start);
            push_entry(&mut context, &lines, span.line, 1, span_start);
        }
        assert(string_views(context@) =~= context_lines(source@, span));
        Context { context, span, label: None, span_indent: context_start - span_start }
    }

    /// Sets the label of the context.
    pub fn label(self, label: &str) -> (r: Self)
        ensures
            r.context == self.context,
            r.span == self.span,
            r.span_indent == self.span_indent,
            r.label matches Some(l) && l@ == label@,
    {
        Context { label: Some(label.to_string()), ..self }
    }
}

/// A span whose line lies past the last line of the text gets no context
/// lines at all.
pub proof fn lemma_context_past_the_end(s: Seq<char>, span: Span)
    requires
        span.line > source_lines(s).len(),
    ensures
        context_lines(s, span).len() == 0,
{
}

/// Every context line is at most [`MAX_WIDTH`] characters wide, the window
/// never starts before the line does, and the span starts inside the window.
pub proof fn lemma_context_window(s: Seq<char>, span: Span)
    ensures
        forall|i: int| 0 <= i < context_lines(s, span).len() ==> #[trigger] context_lines(s, span)[i].len() <= MAX_WIDTH,
        window_start(span) >= 0,
        0 <= span_offset(span) - window_start(span) <= MAX_WIDTH,
{
    let lines = source_lines(s);
    let start = window_start(span);
    let c = context_lines(s, span);
    assert forall|i: int| 0 <= i < c.len() implies #[trigger] c[i].len() <= MAX_WIDTH by {
        assert(span.line <= lines.len());
        let a = context_entry(lines, span.line - 3, start);
        let b = context_entry(lines, span.line - 2, start);
        let d = context_entry(lines, span.line - 1, start);
        assert(c == a + b + d);
        if i < a.len() {
            assert(c[i] == a[i]);
        } else if i < a.len() + b.len() {
            assert(c[i] == b[i - a.len()]);
        } else {
            assert(c[i] == d[i - a.len() - b.len()]);
        }
    }
}

} // verus!
