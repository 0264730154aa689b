//! Turning the failures that a schema validator reports into diagnostics
//! located in the source document.

use vstd::prelude::*;
use crate::context::{context_lines, source_lines, span_offset, string_views, window_start, Context};
use crate::diagnostic::{Diagnostic, Diagnostics, Severity};
use crate::json::Node;
use crate::message::{normalize_message, normalized_message};
use crate::parse::document_of;
use crate::resolve::{highlight_span, resolved, PathSegment};
use crate::source::chars_of;
use crate::text::string_from;

verus! {

/// A failure reported by a schema validator.
#[derive(Debug, Clone)]
pub struct Failure {
    /// Where in the document the failing value is.
    pub pointer: Vec<PathSegment>,
    /// The kind of problem, in the form `is [issue]`.
    pub headline: String,
    /// What the value should be instead, in the form `this [imperative] [detail]`.
    pub message: Option<String>,
    /// The description the schema gives of the failing part, if any.
    pub description: Option<String>,
}

/// The view of an optional string.
pub open spec fn optional_view(o: Option<String>) -> Option<Seq<char>> {
    match o {
        Some(s) => Some(s@),
        None => None,
    }
}

/// The notes made of a description: each of its lines, normalised.
pub open spec fn description_notes(description: Option<String>) -> Seq<Seq<char>> {
    match description {
        Some(text) => source_lines(text@).map_values(|l: Seq<char>| normalized_message(l)),
        None => Seq::empty(),
    }
}

/// `c` is the context of `source` around `span`, labelled `label`.
pub open spec fn is_context_of(c: Context, source: Seq<char>, span: crate::span::Span, label: Option<Seq<char>>) -> bool {
    &&& c.span == span
    &&& string_views(c.context@) == context_lines(source, span)
    &&& c.span_indent == span_offset(span) - window_start(span)
    &&& optional_view(c.label) == label
}

/// `d` reports `f`: an error with the failure's headline, the given file
/// path, notes from the description, and, when the document was parsed and the
/// pointer resolves in it, the context around the node the pointer reaches.
pub open spec fn reports(
    d: Diagnostic,
    source: Seq<char>,
    document: Option<Node>,
    f: Failure,
    file_path: Option<Seq<char>>,
) -> bool {
    &&& d.severity == Severity::Error
    &&& d.headline@ == f.headline@
    &&& optional_view(d.file_path) == file_path
    &&& string_views(d.notes@) == description_notes(f.description)
    &&& match document {
        Some(doc) => match resolved(doc, f.pointer@) {
            Some(n) => d.context matches Some(c) && is_context_of(
                c,
                source,
                highlight_span(n),
                optional_view(f.message),
            ),
            None => d.context is None,
        },
        None => d.context is None,
    }
}

fn copy_optional(o: &Option<String>) -> (r: Option<String>)
    ensures
        optional_view(r) == optional_view(*o),
{
    match o {
        Some(s) => Some(s.as_str().to_string()),
        None => None,
    }
}

/// The notes for a description: each line, normalised.
fn notes_of(description: &Option<String>) -> (r: Vec<String>)
    ensures
        string_views(r@) == description_notes(*description),
{
    let mut notes: Vec<String> = Vec::new();
    match description {
        Some(text) => {
            let chars = chars_of(text.as_str());
            let lines = crate::context::split_lines(&chars);
            let ghost models = lines@.map_values(|l: Vec<char>| l@);
            let mut i: usize = 0;
            while i < lines.len()
                invariant
                    i <= lines@.len(),
                    models == lines@.map_values(|l: Vec<char>| l@),
                    models == source_lines(text@),
                    string_views(notes@) == models.take(i as int).map_values(
                        |l: Seq<char>| normalized_message(l),
                    ),
                decreases lines@.len() - i,
            {
                let line = string_from(&lines[i], 0, lines[i].len());
                assert(lines@[i as int]@.subrange(0, lines@[i as int]@.len() as int) =~= lines@[i as int]@);
                let note = normalize_message(line.as_str());
                let ghost before = string_views(notes@);
                notes.push(note);
                assert(string_views(notes@) =~= before.push(normalized_message(models[i as int])));
                assert(models.take(i + 1) =~= models.take(i as int).push(models[i as int]));
                i = i + 1;
            }
            assert(models.take(i as int) =~= models);
        },
        None => {
            assert(string_views(notes@) =~= Seq::<Seq<char>>::empty());
        },
    }
    notes
}

/// The diagnostic for one failure: rendered without context when there is no
/// document or the pointer does not resolve in it.
pub fn failure_diagnostic(source: &str, document: &Option<Node>, failure: &Failure, file_path: &Option<String>) -> (r:
    Diagnostic)
    ensures
        reports(r, source@, *document, *failure, optional_view(*file_path)),
{
    let context = match document {
        Some(doc) => match doc.evaluate(&failure.pointer) {
            Some(node) => {
                let mut context = Context::new(source, node.highlight());
                context.label = copy_optional(&failure.message);
                Some(context)
            },
            None => None,
        },
        None => None,
    };
    let mut diagnostic = Diagnostic::error(failure.headline.as_str());
    diagnostic.context = context;
    diagnostic.file_path = copy_optional(file_path);
    diagnostic.notes = notes_of(&failure.description);
    diagnostic
}

/// Every failure as a diagnostic, in order, in a collection for "validating JSON".
pub fn diagnostics_for(source: &str, failures: &Vec<Failure>, file_path: &Option<String>) -> (r: Diagnostics)
    requires
        source@.len() <= isize::MAX,
    ensures
        r.context@ == "validating JSON"@,
        r.problems@.len() == failures@.len(),
        exists|document: Option<Node>|
            #[trigger] document_of(source@, document) && forall|i: int|
                0 <= i < failures@.len() ==> reports(
                    #[trigger] r.problems@[i],
                    source@,
                    document,
                    failures@[i],
                    optional_view(*file_path),
                ),
{
    let mut diagnostics = Diagnostics::new("validating JSON");
    let document = Node::parse_document(source);
    let mut i: usize = 0;
    while i < failures.len()
        invariant
            i <= failures@.len(),
            diagnostics.context@ == "validating JSON"@,
            diagnostics.problems@.len() == i,
            document_of(source@, document),
            forall|k: int|
                0 <= k < i ==> reports(
                    #[trigger] diagnostics.problems@[k],
                    source@,
                    document,
                    failures@[k],
                    optional_view(*file_path),
                ),
        decreases failures@.len() - i,
    {
        let d = failure_diagnostic(source, &document, &failures[i], file_path);
        diagnostics.push(d);
        i = i + 1;
    }
    diagnostics
}

} // verus!
