//! Diagnostics over a source file, and their rendering as text.

use vstd::prelude::*;
use crate::context::Context;
use crate::style::{BOLD, CYAN, DEFAULT, RED, RESET, YELLOW};
use crate::text::{decimal, decimal_string, lemma_decimal_len_monotone, push_decimal, push_repeated, repeated};

verus! {

/// A diagnostic severity.
#[derive(Debug, Clone, Copy, PartialEq, Eq, Structural)]
pub enum Severity {
    /// An error.
    Error,
    /// A warning.
    Warning,
}

pub open spec fn colour_of(s: Severity) -> Seq<char> {
    match s {
        Severity::Error => RED@,
        Severity::Warning => YELLOW@,
    }
}

pub open spec fn word_of(s: Severity) -> Seq<char> {
    match s {
        Severity::Error => "error"@,
        Severity::Warning => "warning"@,
    }
}

impl Severity {
    /// The colour the severity is shown in.
    pub fn colour(self) -> (r: &'static str)
        ensures
            r@ == colour_of(self),
    {
        match self {
            Severity::Error => RED,
            Severity::Warning => YELLOW,
        }
    }

    /// The word the severity is shown as.
    pub fn word(self) -> (r: &'static str)
        ensures
            r@ == word_of(self),
    {
        match self {
            Severity::Error => "error",
            Severity::Warning => "warning",
        }
    }
}

/// A diagnostic over some source file.
#[derive(Debug)]
pub struct Diagnostic {
    /// The diagnostic severity.
    pub severity: Severity,
    /// The diagnostic headline.
    pub headline: String,
    /// The diagnostic file path.
    pub file_path: Option<String>,
    /// The diagnostic context.
    pub context: Option<Context>,
    /// The notes.
    pub notes: Vec<String>,
}

impl Diagnostic {
    /// Create a new diagnostic.
    pub fn new(severity: Severity, headline: &str) -> (r: Self)
        ensures
            r.severity == severity,
            r.headline@ == headline@,
            r.file_path is None,
            r.context is None,
            r.notes@.len() == 0,
    {
        Diagnostic {
            severity,
            headline: headline.to_string(),
            file_path: None,
            context: None,
            notes: Vec::new(),
        }
    }

    /// Create an error diagnostic.
    pub fn error(headline: &str) -> (r: Self)
        ensures
            r.severity == Severity::Error,
            r.headline@ == headline@,
            r.file_path is None,
            r.context is None,
            r.notes@.len() == 0,
    {
        Diagnostic::new(Severity::Error, headline)
    }

    /// Create a warning diagnostic.
    pub fn warning(headline: &str) -> (r: Self)
        ensures
            r.severity == Severity::Warning,
            r.headline@ == headline@,
            r.file_path is None,
            r.context is None,
            r.notes@.len() == 0,
    {
        Diagnostic::new(Severity::Warning, headline)
    }

    /// Set the file path of the diagnostic.
    pub fn file_path(self, path: &str) -> (r: Self)
        ensures
            r.severity == self.severity,
            r.headline == self.headline,
            r.file_path matches Some(p) && p@ == path@,
            r.context == self.context,
            r.notes == self.notes,
    {
        Diagnostic { file_path: Some(path.to_string()), ..self }
    }

    /// Add a note to the diagnostic.
    pub fn add_note(self, note: &str) -> (r: Self)
        ensures
            r.severity == self.severity,
            r.headline == self.headline,
            r.file_path == self.file_path,
            r.context == self.context,
            r.notes@.len() == self.notes@.len() + 1,
            r.notes@.drop_last() == self.notes@,
            r.notes@.last()@ == note@,
    {
        let mut d = self;
        d.notes.push(note.to_string());
        assert(d.notes@.drop_last() =~= self.notes@);
        d
    }

    /// Set the context of the diagnostic.
    pub fn context(self, context: Context) -> (r: Self)
        ensures
            r.severity == self.severity,
            r.headline == self.headline,
            r.file_path == self.file_path,
            r.context == Some(context),
            r.notes == self.notes,
    {
        Diagnostic { context: Some(context), ..self }
    }
}

/// The width of the line-number gutter: the digits of the span's line, or one.
pub open spec fn gutter_width(d: Diagnostic) -> nat {
    match d.context {
        Some(c) => decimal(c.span.line as nat).len(),
        None => 1,
    }
}

/// The margin in front of gutter rows that carry no line number.
pub open spec fn margin(d: Diagnostic) -> Seq<char> {
    repeated(' ', gutter_width(d))
}

/// `error: headline`, styled.
pub open spec fn headline_row(d: Diagnostic) -> Seq<char> {
    BOLD@ + colour_of(d.severity) + word_of(d.severity) + DEFAULT@ + ": "@ + d.headline@ + RESET@ + "\n"@
}

/// `--> path[:line:column]`, or `--> line L, column C` without a path, or
/// nothing with neither.
pub open spec fn location_row(d: Diagnostic) -> Seq<char> {
    match d.file_path {
        Some(p) => margin(d) + CYAN@ + BOLD@ + "-->"@ + RESET@ + " "@ + p@ + match d.context {
            Some(c) => ":"@ + decimal(c.span.line as nat) + ":"@ + decimal(c.span.column as nat),
            None => Seq::empty(),
        } + "\n"@,
        None => match d.context {
            Some(c) => margin(d) + CYAN@ + BOLD@ + "-->"@ + RESET@ + " line "@ + decimal(c.span.line as nat)
                + ", column "@ + decimal(c.span.column as nat) + "\n"@,
            None => Seq::empty(),
        },
    }
}

/// An empty gutter row.
pub open spec fn spacer_row(d: Diagnostic) -> Seq<char> {
    margin(d) + CYAN@ + BOLD@ + " | "@ + RESET@ + "\n"@
}

/// The line number of context line `i`: counted back from the span's line,
/// never below zero.
pub open spec fn line_number(c: Context, i: int) -> nat {
    let back = c.context@.len() - 1 - i;
    if c.span.line >= back {
        (c.span.line - back) as nat
    } else {
        0
    }
}

/// Context line `i` behind its right-aligned line number.
pub open spec fn source_row(c: Context, width: nat, i: int) -> Seq<char> {
    let number = decimal(line_number(c, i));
    CYAN@ + BOLD@ + repeated(' ', (width - number.len()) as nat) + number + " | "@ + RESET@
        + c.context@[i]@
}

/// The first `k` context lines, each as a row.
pub open spec fn source_rows(c: Context, width: nat, k: int) -> Seq<char>
    decreases k,
{
    if k <= 0 {
        Seq::empty()
    } else {
        source_rows(c, width, k - 1) + source_row(c, width, k - 1) + "\n"@
    }
}

/// The carets under the span, then the label if there is one.
pub open spec fn caret_row(d: Diagnostic, c: Context) -> Seq<char> {
    margin(d) + CYAN@ + BOLD@ + " | "@ + RESET@ + repeated(' ', c.span_indent as nat) + colour_of(d.severity)
        + BOLD@ + repeated('^', c.span.length as nat) + match c.label {
        Some(l) => " "@ + l@,
        None => Seq::empty(),
    } + RESET@ + "\n"@
}

/// The source rows and the caret row, if there is a context.
pub open spec fn context_block(d: Diagnostic) -> Seq<char> {
    match d.context {
        Some(c) => source_rows(c, gutter_width(d), c.context@.len() as int) + caret_row(d, c),
        None => Seq::empty(),
    }
}

/// The first `k` notes, each as a row.
pub open spec fn note_rows(d: Diagnostic, k: int) -> Seq<char>
    decreases k,
{
    if k <= 0 {
        Seq::empty()
    } else {
        note_rows(d, k - 1) + margin(d) + CYAN@ + BOLD@ + " = "@ + DEFAULT@ + "note"@ + RESET@ + ": "@
            + d.notes@[k - 1]@ + "\n"@
    }
}

/// A spacer and then the notes, if there are any.
pub open spec fn notes_block(d: Diagnostic) -> Seq<char> {
    if d.notes@.len() == 0 {
        Seq::empty()
    } else {
        spacer_row(d) + note_rows(d, d.notes@.len() as int)
    }
}

/// The full text of a diagnostic.
pub open spec fn rendered(d: Diagnostic) -> Seq<char> {
    headline_row(d) + location_row(d) + spacer_row(d) + context_block(d) + notes_block(d)
}

fn push_headline(out: &mut String, d: &Diagnostic)
    ensures
        final(out)@ == old(out)@ + headline_row(*d),
{
    out.append(BOLD);
    out.append(d.severity.colour());
    out.append(d.severity.word());
    out.append(DEFAULT);
    out.append(": ");
    out.append(d.headline.as_str());
    out.append(RESET);
    out.append("\n");
    assert(out@ =~= old(out)@ + headline_row(*d));
}

/// The margin of `d`, computed.
fn margin_width(d: &Diagnostic) -> (r: usize)
    ensures
        r == gutter_width(*d),
{
    match &d.context {
        Some(c) => decimal_string(c.span.line).as_str().unicode_len(),
        None => 1,
    }
}

fn push_location(out: &mut String, d: &Diagnostic, width: usize)
    requires
        width == gutter_width(*d),
    ensures
        final(out)@ == old(out)@ + location_row(*d),
{
    match &d.file_path {
        Some(p) => {
            push_repeated(out, ' ', width);
            out.append(CYAN);
            out.append(BOLD);
            out.append("-->");
            out.append(RESET);
            out.append(" ");
            out.append(p.as_str());
            match &d.context {
                Some(c) => {
                    out.append(":");
                    push_decimal(out, c.span.line);
                    out.append(":");
                    push_decimal(out, c.span.column);
                },
                None => {},
            }
            out.append("\n");
        },
        None => match &d.context {
            Some(c) => {
                push_repeated(out, ' ', width);
                out.append(CYAN);
                out.append(BOLD);
                out.append("-->");
                out.append(RESET);
                out.append(" line ");
                push_decimal(out, c.span.line);
                out.append(", column ");
                push_decimal(out, c.span.column);
                out.append("\n");
            },
            None => {},
        },
    }
    assert(out@ =~= old(out)@ + location_row(*d));
}

fn push_spacer(out: &mut String, d: &Diagnostic, width: usize)
    requires
        width == gutter_width(*d),
    ensures
        final(out)@ == old(out)@ + spacer_row(*d),
{
    push_repeated(out, ' ', width);
    out.append(CYAN);
    out.append(BOLD);
    out.append(" | ");
    out.append(RESET);
    out.append("\n");
    assert(out@ =~= old(out)@ + spacer_row(*d));
}

fn push_source_row(out: &mut String, c: &Context, width: usize, i: usize)
    requires
        i < c.context@.len(),
        width == decimal(c.span.line as nat).len(),
    ensures
        final(out)@ == old(out)@ + source_row(*c, width as nat, i as int) + "\n"@,
{
    let back = c.context.len() - 1 - i;
    let number = if c.span.line >= back {
        c.span.line - back
    } else {
        0
    };
    proof {
        lemma_decimal_len_monotone(number as nat, c.span.line as nat);
    }
    let digits = decimal_string(number);
    let digits_len = digits.as_str().unicode_len();
    out.append(CYAN);
    out.append(BOLD);
    push_repeated(out, ' ', width - digits_len);
    out.append(digits.as_str());
    out.append(" | ");
    out.append(RESET);
    out.append(c.context[i].as_str());
    out.append("\n");
    assert(line_number(*c, i as int) == number);
    assert(out@ =~= old(out)@ + source_row(*c, width as nat, i as int) + "\n"@);
}

fn push_caret_row(out: &mut String, d: &Diagnostic, c: &Context, width: usize)
    requires
        width == gutter_width(*d),
    ensures
        final(out)@ == old(out)@ + caret_row(*d, *c),
{
    push_repeated(out, ' ', width);
    out.append(CYAN);
    out.append(BOLD);
    out.append(" | ");
    out.append(RESET);
    push_repeated(out, ' ', c.span_indent);
    out.append(d.severity.colour());
    out.append(BOLD);
    push_repeated(out, '^', c.span.length);
    match &c.label {
        Some(label) => {
            out.append(" ");
            out.append(label.as_str());
        },
        None => {},
    }
    out.append(RESET);
    out.append("\n");
    assert(out@ =~= old(out)@ + caret_row(*d, *c));
}

fn push_context(out: &mut String, d: &Diagnostic, width: usize)
    requires
        width == gutter_width(*d),
    ensures
        final(out)@ == old(out)@ + context_block(*d),
{
    match &d.context {
        Some(c) => {
            let ghost start = out@;
            let n = c.context.len();
            let mut i: usize = 0;
            while i < n
                invariant
                    i <= n,
                    n == c.context@.len(),
                    width == decimal(c.span.line as nat).len(),
                    out@ == start + source_rows(*c, width as nat, i as int),
                decreases n - i,
            {
                push_source_row(out, c, width, i);
                i = i + 1;
            }
            push_caret_row(out, d, c, width);
            assert(out@ =~= start + context_block(*d));
        },
        None => {
            assert(out@ =~= old(out)@ + context_block(*d));
        },
    }
}

fn push_notes(out: &mut String, d: &Diagnostic, width: usize)
    requires
        width == gutter_width(*d),
    ensures
        final(out)@ == old(out)@ + notes_block(*d),
{
    if d.notes.len() == 0 {
        assert(out@ =~= old(out)@ + notes_block(*d));
        return;
    }
    push_spacer(out, d, width);
    let ghost start = out@;
    let mut i: usize = 0;
    while i < d.notes.len()
        invariant
            i <= d.notes@.len(),
            width == gutter_width(*d),
            out@ == start + note_rows(*d, i as int),
        decreases d.notes@.len() - i,
    {
        let ghost before = out@;
        push_repeated(out, ' ', width);
        out.append(CYAN);
        out.append(BOLD);
        out.append(" = ");
        out.append(DEFAULT);
        out.append("note");
        out.append(RESET);
        out.append(": ");
        out.append(d.notes[i].as_str());
        out.append("\n");
        i = i + 1;
        assert(out@ =~= start + note_rows(*d, i as int));
    }
    assert(out@ =~= old(out)@ + notes_block(*d));
}

impl Diagnostic {
    /// The diagnostic as text: headline, location, source context with line
    /// numbers and carets, and notes.
    pub fn render(&self) -> (r: String)
        ensures
            r@ == rendered(*self),
    {
        let width = margin_width(self);
        let mut out = String::new();
        push_headline(&mut out, self);
        push_location(&mut out, self, width);
        push_spacer(&mut out, self, width);
        push_context(&mut out, self, width);
        push_notes(&mut out, self, width);
        assert(out@ =~= rendered(*self));
        out
    }
}

/// The diagnostics a sequence of references points at.
pub open spec fn derefs(v: Seq<&Diagnostic>) -> Seq<Diagnostic> {
    v.map_values(|d: &Diagnostic| *d)
}

/// The diagnostics of severity `severity`, in order.
pub open spec fn of_severity(ds: Seq<Diagnostic>, severity: Severity) -> Seq<Diagnostic> {
    ds.filter(|d: Diagnostic| d.severity == severity)
}

/// Each diagnostic rendered, followed by an empty line.
pub open spec fn rendered_group(ds: Seq<Diagnostic>) -> Seq<char>
    decreases ds.len(),
{
    if ds.len() == 0 {
        Seq::empty()
    } else {
        rendered_group(ds.drop_last()) + rendered(ds.last()) + "\n"@
    }
}

/// `error: <context> generated <n> errors`, styled, if there are errors.
pub open spec fn error_summary(context: Seq<char>, n: nat) -> Seq<char> {
    if n == 0 {
        Seq::empty()
    } else {
        BOLD@ + RED@ + "error"@ + DEFAULT@ + ":"@ + RESET@ + " "@ + context + " generated "@ + decimal(n)
            + " errors"@ + "\n"@
    }
}

/// `warning: <context> generated <n> warnings`, styled, if there are warnings.
pub open spec fn warning_summary(context: Seq<char>, n: nat) -> Seq<char> {
    if n == 0 {
        Seq::empty()
    } else {
        BOLD@ + YELLOW@ + "warning"@ + DEFAULT@ + ":"@ + RESET@ + " "@ + context + " generated "@ + decimal(
            n,
        ) + " warnings"@ + "\n"@
    }
}

/// A collection of diagnostics
#[derive(Debug)]
pub struct Diagnostics {
    /// The problems.
    pub problems: Vec<Diagnostic>,
    /// What was being done when the problems were found.
    pub context: String,
}

/// The full text of a collection: the errors, then the warnings, each in
/// insertion order, then a summary line for each severity that occurs.
pub open spec fn rendered_all(d: Diagnostics) -> Seq<char> {
    let errors = of_severity(d.problems@, Severity::Error);
    let warnings = of_severity(d.problems@, Severity::Warning);
    rendered_group(errors) + rendered_group(warnings) + error_summary(d.context@, errors.len())
        + warning_summary(d.context@, warnings.len())
}

proof fn lemma_of_severity_step(ds: Seq<Diagnostic>, severity: Severity, i: int)
    requires
        0 <= i < ds.len(),
    ensures
        of_severity(ds.take(i + 1), severity) == if ds[i].severity == severity {
            of_severity(ds.take(i), severity).push(ds[i])
        } else {
            of_severity(ds.take(i), severity)
        },
{
    reveal(Seq::filter);
    assert(ds.take(i + 1).drop_last() =~= ds.take(i));
}

impl Diagnostics {
    /// Create a new collection of diagnostics.
    pub fn new(context: &str) -> (r: Self)
        ensures
            r.problems@.len() == 0,
            r.context@ == context@,
    {
        Diagnostics { problems: Vec::new(), context: context.to_string() }
    }

    /// Returns if there are no diagnostics.
    pub fn is_empty(&self) -> (r: bool)
        ensures
            r == (self.problems@.len() == 0),
    {
        self.problems.len() == 0
    }

    /// Push a diagnostic into this collection.
    pub fn push(&mut self, diagnostic: Diagnostic)
        ensures
            final(self).problems@ == old(self).problems@.push(diagnostic),
            final(self).context == old(self).context,
    {
        self.problems.push(diagnostic);
    }

    fn of_severity(&self, severity: Severity) -> (r: Vec<&Diagnostic>)
        ensures
            derefs(r@) == of_severity(self.problems@, severity),
    {
        let mut out: Vec<&Diagnostic> = Vec::new();
        let mut i: usize = 0;
        while i < self.problems.len()
            invariant
                i <= self.problems@.len(),
                derefs(out@) == of_severity(self.problems@.take(i as int), severity),
            decreases self.problems@.len() - i,
        {
            proof {
                lemma_of_severity_step(self.problems@, severity, i as int);
            }
            let problem = &self.problems[i];
            let ghost before = out@;
            if problem.severity == severity {
                out.push(problem);
                assert(derefs(out@) =~= derefs(before).push(*problem));
            }
            i = i + 1;
        }
        assert(self.problems@.take(i as int) =~= self.problems@);
        out
    }

    /// The error diagnostics, in insertion order.
    pub fn errors(&self) -> (r: Vec<&Diagnostic>)
        ensures
            derefs(r@) == of_severity(self.problems@, Severity::Error),
    {
        self.of_severity(Severity::Error)
    }

    /// The warning diagnostics, in insertion order.
    pub fn warnings(&self) -> (r: Vec<&Diagnostic>)
        ensures
            derefs(r@) == of_severity(self.problems@, Severity::Warning),
    {
        self.of_severity(Severity::Warning)
    }
}

fn push_group(out: &mut String, group: &Vec<&Diagnostic>)
    ensures
        final(out)@ == old(out)@ + rendered_group(derefs(group@)),
{
    let ghost start = out@;
    let mut i: usize = 0;
    while i < group.len()
        invariant
            i <= group@.len(),
            out@ == start + rendered_group(derefs(group@.take(i as int))),
        decreases group@.len() - i,
    {
        let text = group[i].render();
        out.append(text.as_str());
        out.append("\n");
        assert(derefs(group@.take(i + 1)).drop_last() =~= derefs(group@.take(i as int)));
        assert(derefs(group@.take(i + 1)).last() == *group@[i as int]);
        i = i + 1;
        assert(out@ =~= start + rendered_group(derefs(group@.take(i as int))));
    }
    assert(group@.take(i as int) =~= group@);
}

fn push_error_summary(out: &mut String, context: &str, n: usize)
    ensures
        final(out)@ == old(out)@ + error_summary(context@, n as nat),
{
    if n > 0 {
        out.append(BOLD);
        out.append(RED);
        out.append("error");
        out.append(DEFAULT);
        out.append(":");
        out.append(RESET);
        out.append(" ");
        out.append(context);
        out.append(" generated ");
        push_decimal(out, n);
        out.append(" errors");
        out.append("\n");
    }
    assert(out@ =~= old(out)@ + error_summary(context@, n as nat));
}

fn push_warning_summary(out: &mut String, context: &str, n: usize)
    ensures
        final(out)@ == old(out)@ + warning_summary(context@, n as nat),
{
    if n > 0 {
        out.append(BOLD);
        out.append(YELLOW);
        out.append("warning");
        out.append(DEFAULT);
        out.append(":");
        out.append(RESET);
        out.append(" ");
        out.append(context);
        out.append(" generated ");
        push_decimal(out, n);
        out.append(" warnings");
        out.append("\n");
    }
    assert(out@ =~= old(out)@ + warning_summary(context@, n as nat));
}

impl Diagnostics {
    /// The collection as text: every error, then every warning, each
    /// followed by an empty line, then a summary line for each severity that
    /// occurs. No diagnostics render as the empty string.
    pub fn render(&self) -> (r: String)
        ensures
            r@ == rendered_all(*self),
    {
        let errors = self.errors();
        let warnings = self.warnings();
        let mut out = String::new();
        push_group(&mut out, &errors);
        push_group(&mut out, &warnings);
        push_error_summary(&mut out, self.context.as_str(), errors.len());
        push_warning_summary(&mut out, self.context.as_str(), warnings.len());
        assert(derefs(errors@).len() == errors@.len());
        assert(derefs(warnings@).len() == warnings@.len());
        assert(out@ =~= rendered_all(*self));
        out
    }
}

} // verus!
