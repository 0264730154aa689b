//! The recursive-descent parser. Each routine reads from a [`CharStream`] and
//! moves a shared [`Span`] that tracks the current line and column; what each
//! one reads, consumes and moves is the matching function of `grammar`.

use vstd::prelude::*;
use crate::span::{advanced, Span};
use crate::source::CharStream;
use crate::grammar::{
    bounded, is_json_whitespace, is_literal_char, lemma_literal_end_bounds, lemma_string_end_bounds, lemma_whitespace_bounds,
    literal_end, next_column, parsed_array, parsed_comma, parsed_items, parsed_literal, parsed_members,
    parsed_document, parsed_object, parsed_string, recovered, skipped_element, parsed_value, parsed_whitespace, skipped_whitespace, string_end,
};
use crate::graphemes::grapheme_count;
use crate::json::{
    nodes_model, node_model, text_model, value_model, Array, Literal, Node, NodeModel, Object, SpannedText,
    StringValue, Value, ValueModel,
};
use crate::text::push_char;

verus! {

/// The stream kept its text and stayed well formed, and the index did not go back.
pub open spec fn advanced_over(before: CharStream, after: CharStream) -> bool {
    after.chars@ == before.chars@ && after.wf() && before.index <= after.index
}

/// Whitespace in a JSON document.
pub struct Whitespace;

impl Whitespace {
    /// Parse some whitespace, updating the global span line and column.
    pub fn parse(global_span: &mut Span, iter: &mut CharStream)
        requires
            old(iter).wf(),
            bounded(*old(global_span), old(iter).chars@.len() as int, old(iter).index as int),
        ensures
            advanced_over(*old(iter), *final(iter)),
            bounded(*final(global_span), final(iter).chars@.len() as int, final(iter).index as int),
            (final(iter).index as int, *final(global_span)) == parsed_whitespace(
                old(iter).chars@,
                old(iter).index as int,
                *old(global_span),
            ),
    {
        let ghost s = iter.chars@;
        let ghost goal = parsed_whitespace(s, iter.index as int, *global_span);
        let ghost start = iter.index;
        let mut after_cr = false;
        loop
            invariant
                iter.chars@ == s,
                iter.wf(),
                start <= iter.index,
                bounded(*global_span, iter.chars@.len() as int, iter.index as int),
                skipped_whitespace(s, iter.index as int, *global_span, after_cr) == goal,
            ensures
                (iter.index as int, *global_span) == goal,
            decreases s.len() - iter.index,
        {
            match iter.peek() {
                Some(c) => {
                    if c == '\r' || (c == '\n' && !after_cr) {
                        iter.index = iter.index + 1;
                        global_span.column = 1;
                        global_span.line = global_span.line + 1;
                        after_cr = c == '\r';
                    } else if c == '\n' {
                        iter.index = iter.index + 1;
                        after_cr = false;
                    } else if c == ' ' || c == '\t' {
                        iter.index = iter.index + 1;
                        after_cr = false;
                        global_span.column = global_span.column + 1;
                    } else {
                        assert(!is_json_whitespace(s[iter.index as int]));
                        break;
                    }
                },
                None => {
                    assert(iter.index == s.len());
                    break;
                },
            }
        }
    }
}

/// Whether `c` may be part of a literal.
pub fn literal_char(c: char) -> (r: bool)
    ensures
        r == is_literal_char(c),
{
    ('0' as u32 <= c as u32 && c as u32 <= '9' as u32) || c == '.' || c == '+' || c == '-' || c == 'e'
        || c == 'E' || c == 'n' || c == 'u' || c == 'l' || c == 't' || c == 'r' || c == 'f' || c
        == 'a' || c == 's'
}

impl StringValue {
    /// Parse a string value: the body is copied verbatim up to the first
    /// unescaped quote, and the span is as wide as the body's grapheme clusters
    /// plus the two quotes.
    pub fn parse(global_span: &mut Span, iter: &mut CharStream) -> (r: Option<StringValue>)
        requires
            old(iter).wf(),
            bounded(*old(global_span), old(iter).chars@.len() as int, old(iter).index as int),
        ensures
            advanced_over(*old(iter), *final(iter)),
            bounded(*final(global_span), final(iter).chars@.len() as int, final(iter).index as int),
            ({
                let (m, p, q) = parsed_string(old(iter).chars@, old(iter).index as int, *old(global_span));
                &&& final(iter).index == p
                &&& *final(global_span) == q
                &&& m == match r {
                    Some(v) => Some(text_model(v)),
                    None => None,
                }
            }),
    {
        let ghost s = iter.chars@;
        let ghost start = iter.index as int;
        if iter.next_if_eq('"').is_none() {
            return None;
        }
        let ghost end = string_end(s, start + 1);
        proof {
            lemma_string_end_bounds(s, start + 1);
        }
        let mut span = global_span.length(0);
        let mut value = String::new();
        let mut is_escaped = false;
        loop
            invariant_except_break
                value@ == s.subrange(start + 1, iter.index as int),
                !is_escaped ==> string_end(s, iter.index as int) == end && iter.index <= end,
                is_escaped ==> start + 1 < iter.index && s[iter.index - 1] == '\\' && string_end(
                    s,
                    iter.index - 1,
                ) == end && iter.index <= end,
            invariant
                iter.chars@ == s,
                iter.wf(),
                start < iter.index <= end + 1,
                0 <= start < s.len(),
                start + 1 <= end <= s.len(),
                end < s.len() ==> s[end] == '"',
            ensures
                value@ == s.subrange(start + 1, end),
                iter.index == (if end < s.len() { end + 1 } else { end }),
            decreases s.len() - iter.index,
        {
            match iter.next() {
                Some(character) => {
                    proof {
                        lemma_string_end_bounds(s, iter.index as int);
                        if iter.index + 1 <= s.len() {
                            lemma_string_end_bounds(s, iter.index + 1);
                        }
                    }
                    if is_escaped {
                        push_char(&mut value, character);
                        is_escaped = false;
                    } else if character == '"' {
                        break;
                    } else if character == '\\' {
                        is_escaped = true;
                        push_char(&mut value, '\\');
                    } else {
                        push_char(&mut value, character);
                    }
                    assert(value@ =~= s.subrange(start + 1, iter.index as int)) by {
                        assert(s.subrange(start + 1, iter.index as int) =~= s.subrange(
                            start + 1,
                            iter.index - 1,
                        ).push(s[iter.index - 1]));
                    }
                },
                None => break,
            }
        }
        let count = grapheme_count(value.as_str());
        let columns = count + 2;
        global_span.column = global_span.column + columns;
        span.length = columns;
        Some(StringValue { span, value })
    }
}

impl Literal {
    /// Parse a literal: the longest run of literal characters, or none if the
    /// next character cannot start one.
    pub fn parse(global_span: &mut Span, iter: &mut CharStream) -> (r: Option<Literal>)
        requires
            old(iter).wf(),
            bounded(*old(global_span), old(iter).chars@.len() as int, old(iter).index as int),
        ensures
            advanced_over(*old(iter), *final(iter)),
            bounded(*final(global_span), final(iter).chars@.len() as int, final(iter).index as int),
            ({
                let (m, p, q) = parsed_literal(old(iter).chars@, old(iter).index as int, *old(global_span));
                &&& final(iter).index == p
                &&& *final(global_span) == q
                &&& m == match r {
                    Some(v) => Some(SpannedText { span: v.span, text: v.value@ }),
                    None => None,
                }
            }),
    {
        let ghost s = iter.chars@;
        let ghost start = iter.index as int;
        let ghost sp0 = *global_span;
        proof {
            lemma_literal_end_bounds(s, start);
        }
        let mut span = global_span.length(0);
        let mut value = String::new();
        loop
            invariant
                iter.chars@ == s,
                iter.wf(),
                start <= iter.index <= literal_end(s, start),
                literal_end(s, iter.index as int) == literal_end(s, start),
                value@ == s.subrange(start, iter.index as int),
                span == (Span { length: (iter.index - start) as usize, ..sp0 }),
                *global_span == (Span { column: (sp0.column + (iter.index - start)) as usize, ..sp0 }),
                bounded(sp0, s.len() as int, start),
            ensures
                iter.index == literal_end(s, start),
            decreases s.len() - iter.index,
        {
            match iter.peek() {
                Some(character) => {
                    if !literal_char(character) {
                        assert(literal_end(s, iter.index as int) == iter.index);
                        break;
                    }
                    proof {
                        lemma_literal_end_bounds(s, iter.index + 1);
                    }
                    iter.index = iter.index + 1;
                    push_char(&mut value, character);
                    assert(value@ =~= s.subrange(start, iter.index as int));
                    span.length = span.length + 1;
                    *global_span = global_span.advance(character);
                },
                None => {
                    assert(literal_end(s, iter.index as int) == iter.index);
                    break;
                },
            }
        }
        if value.as_str().is_empty() {
            return None;
        }
        Some(Literal { span, value })
    }
}

/// The model of an optional object, as [`parsed_object`] gives it.
pub open spec fn object_result(r: Option<Object>) -> Option<ValueModel> {
    match r {
        Some(o) => Some(ValueModel::Obj(o.span, nodes_model(o.properties@))),
        None => None,
    }
}

/// The model of an optional array, as [`parsed_array`] gives it.
pub open spec fn array_result(r: Option<Array>) -> Option<ValueModel> {
    match r {
        Some(a) => Some(ValueModel::Arr(a.span, nodes_model(a.items@))),
        None => None,
    }
}

proof fn lemma_nodes_model_push(ns: Seq<Node>, n: Node)
    ensures
        nodes_model(ns.push(n)) == nodes_model(ns).push(node_model(n)),
{
    assert(ns.push(n).drop_last() =~= ns);
}

impl Value {
    /// Parse a value, with the whitespace around it.
    pub fn parse(global_span: &mut Span, iter: &mut CharStream) -> (r: Option<Value>)
        requires
            old(iter).wf(),
            bounded(*old(global_span), old(iter).chars@.len() as int, old(iter).index as int),
        ensures
            advanced_over(*old(iter), *final(iter)),
            bounded(*final(global_span), final(iter).chars@.len() as int, final(iter).index as int),
            ({
                let (m, p, q) = parsed_value(old(iter).chars@, old(iter).index as int, *old(global_span));
                &&& final(iter).index == p
                &&& *final(global_span) == q
                &&& m == match r {
                    Some(v) => Some(value_model(v)),
                    None => None,
                }
            }),
        decreases old(iter).chars@.len() - old(iter).index, 2int,
    {
        Whitespace::parse(global_span, iter);
        let value = match iter.peek() {
            None => return None,
            Some(character) => {
                if character == '"' {
                    match StringValue::parse(global_span, iter) {
                        Some(v) => Value::String(v),
                        None => return None,
                    }
                } else if character == '{' {
                    match Object::parse(global_span, iter) {
                        Some(v) => Value::Object(v),
                        None => return None,
                    }
                } else if character == '[' {
                    match Array::parse(global_span, iter) {
                        Some(v) => Value::Array(v),
                        None => return None,
                    }
                } else {
                    match Literal::parse(global_span, iter) {
                        Some(v) => Value::Literal(v),
                        None => return None,
                    }
                }
            },
        };
        Whitespace::parse(global_span, iter);
        Some(value)
    }
}

impl Object {
    /// Parse an object. A member whose value cannot be read is left out; a
    /// member without a tag or colon is skipped up to the next comma or
    /// closing brace; at the end of the text the members read so far are kept.
    pub fn parse(global_span: &mut Span, iter: &mut CharStream) -> (r: Option<Object>)
        requires
            old(iter).wf(),
            bounded(*old(global_span), old(iter).chars@.len() as int, old(iter).index as int),
        ensures
            advanced_over(*old(iter), *final(iter)),
            bounded(*final(global_span), final(iter).chars@.len() as int, final(iter).index as int),
            ({
                let (m, p, q) = parsed_object(old(iter).chars@, old(iter).index as int, *old(global_span));
                &&& final(iter).index == p
                &&& *final(global_span) == q
                &&& m == object_result(r)
            }),
        decreases old(iter).chars@.len() - old(iter).index, 1int,
    {
        let ghost s = iter.chars@;
        let ghost start = iter.index as int;
        let ghost sp0 = *global_span;
        if iter.next_if_eq('{').is_none() {
            return None;
        }
        let span = global_span.length(1);
        *global_span = global_span.advance('{');
        let ghost goal = parsed_members(s, start + 1, next_column(sp0), Seq::empty());
        let mut properties: Vec<Node> = Vec::new();
        assert(nodes_model(properties@) =~= Seq::<NodeModel>::empty());
        loop
            invariant
                iter.chars@ == s,
                iter.wf(),
                start < iter.index,
                s == old(iter).chars@,
                start == old(iter).index,
                sp0 == *old(global_span),
                span == (Span { length: 1, ..sp0 }),
                bounded(*global_span, iter.chars@.len() as int, iter.index as int),
                parsed_members(s, iter.index as int, *global_span, nodes_model(properties@)) == goal,
                goal == parsed_members(s, start + 1, next_column(sp0), Seq::empty()),
                s[start] == '{',
            ensures
                iter.index < s.len() ==> s[iter.index as int] == '}',
            decreases s.len() - iter.index,
        {
            match iter.peek() {
                Some(character) => {
                    if character == '}' {
                        break;
                    }
                },
                None => break,
            }
            let round = iter.index;
            let ghost round_span = *global_span;
            let ghost before = nodes_model(properties@);
            Whitespace::parse(global_span, iter);
            match StringValue::parse(global_span, iter) {
                None => skip_element(global_span, iter, '}'),
                Some(tag) => {
                    Whitespace::parse(global_span, iter);
                    if iter.next_if_eq(':').is_none() {
                        skip_element(global_span, iter, '}');
                    } else {
                        *global_span = global_span.advance(':');
                        match Value::parse(global_span, iter) {
                            Some(value) => {
                                proof {
                                    lemma_nodes_model_push(properties@, Node { tag: Some(tag), value });
                                }
                                properties.push(Node { tag: Some(tag), value });
                            },
                            None => {},
                        }
                        if iter.next_if_eq(',').is_some() {
                            *global_span = global_span.advance(',');
                        }
                    }
                },
            }
            // A round always reads a quote, or skips a character that is not a
            // closing brace; the check makes that progress, and so termination,
            // evident.
            if iter.index <= round {
                assert(parsed_members(s, round as int, round_span, before) == (
                    None::<Seq<NodeModel>>,
                    iter.index as int,
                    *global_span,
                ));
                return None;
            }
        }
        if iter.next_if_eq('}').is_none() {
            return Some(Object { span, properties });
        }
        *global_span = global_span.advance('}');
        Some(Object { span, properties })
    }
}

/// Skips an element that cannot be read, in a container that ends with
/// `close`: up to the next `,` or `close` outside any nested object, array or
/// string, and then past that comma.
fn skip_element(global_span: &mut Span, iter: &mut CharStream, close: char)
    requires
        close == '}' || close == ']',
        old(iter).wf(),
        bounded(*old(global_span), old(iter).chars@.len() as int, old(iter).index as int),
    ensures
        advanced_over(*old(iter), *final(iter)),
        bounded(*final(global_span), final(iter).chars@.len() as int, final(iter).index as int),
        (final(iter).index as int, *final(global_span)) == recovered(
            old(iter).chars@,
            old(iter).index as int,
            *old(global_span),
            close,
        ),
{
    let ghost s = iter.chars@;
    let ghost goal = skipped_element(s, iter.index as int, *global_span, close, 0, false, false);
    let ghost start = iter.index;
    let mut depth: usize = 0;
    let mut in_string = false;
    let mut escaped = false;
    loop
        invariant
            iter.chars@ == s,
            iter.wf(),
            start <= iter.index,
            depth <= iter.index,
            close == '}' || close == ']',
            !in_string ==> !escaped,
            bounded(*global_span, s.len() as int, iter.index as int),
            skipped_element(s, iter.index as int, *global_span, close, depth as nat, in_string, escaped) == goal,
        ensures
            (iter.index as int, *global_span) == goal,
        decreases s.len() - iter.index,
    {
        let c = match iter.peek() {
            Some(c) => c,
            None => break,
        };
        if !in_string && depth == 0 && (c == close || c == ',') {
            break;
        }
        let ghost (i0, sp0, d0, ins0, esc0) = (iter.index as int, *global_span, depth as nat, in_string, escaped);
        assert(s[i0] == c);
        iter.index = iter.index + 1;
        *global_span = global_span.advance(c);
        if in_string {
            if escaped {
                escaped = false;
            } else if c == '\\' {
                escaped = true;
            } else if c == '"' {
                in_string = false;
            }
        } else if c == '"' {
            in_string = true;
        } else if c == '{' || c == '[' {
            depth = depth + 1;
        } else if (c == '}' || c == ']') && depth > 0 {
            depth = depth - 1;
        }
        assert(skipped_element(s, i0, sp0, close, d0, ins0, esc0) == skipped_element(
            s,
            iter.index as int,
            *global_span,
            close,
            depth as nat,
            in_string,
            escaped,
        ));
    }
    if iter.next_if_eq(',').is_some() {
        *global_span = global_span.advance(',');
    }
}

impl Array {
    /// Parse an array. An item that cannot be read is left out; an item that
    /// cannot even start is skipped up to the next comma or closing bracket; at
    /// the end of the text the items read so far are kept.
    pub fn parse(global_span: &mut Span, iter: &mut CharStream) -> (r: Option<Array>)
        requires
            old(iter).wf(),
            bounded(*old(global_span), old(iter).chars@.len() as int, old(iter).index as int),
        ensures
            advanced_over(*old(iter), *final(iter)),
            bounded(*final(global_span), final(iter).chars@.len() as int, final(iter).index as int),
            ({
                let (m, p, q) = parsed_array(old(iter).chars@, old(iter).index as int, *old(global_span));
                &&& final(iter).index == p
                &&& *final(global_span) == q
                &&& m == array_result(r)
            }),
        decreases old(iter).chars@.len() - old(iter).index, 1int,
    {
        let ghost s = iter.chars@;
        let ghost start = iter.index as int;
        let ghost sp0 = *global_span;
        if iter.next_if_eq('[').is_none() {
            return None;
        }
        let span = global_span.length(1);
        *global_span = global_span.advance('[');
        let ghost goal = parsed_items(s, start + 1, next_column(sp0), Seq::empty());
        let mut items: Vec<Node> = Vec::new();
        assert(nodes_model(items@) =~= Seq::<NodeModel>::empty());
        loop
            invariant
                iter.chars@ == s,
                iter.wf(),
                start < iter.index,
                s == old(iter).chars@,
                start == old(iter).index,
                sp0 == *old(global_span),
                span == (Span { length: 1, ..sp0 }),
                bounded(*global_span, iter.chars@.len() as int, iter.index as int),
                parsed_items(s, iter.index as int, *global_span, nodes_model(items@)) == goal,
                goal == parsed_items(s, start + 1, next_column(sp0), Seq::empty()),
                s[start] == '[',
            ensures
                iter.index < s.len() ==> s[iter.index as int] == ']',
            decreases s.len() - iter.index,
        {
            match iter.peek() {
                Some(character) => {
                    if character == ']' {
                        break;
                    }
                },
                None => break,
            }
            let round = iter.index;
            let ghost round_span = *global_span;
            let ghost before = nodes_model(items@);
            Whitespace::parse(global_span, iter);
            match Value::parse(global_span, iter) {
                Some(value) => {
                    proof {
                        lemma_nodes_model_push(items@, Node { tag: None, value });
                    }
                    items.push(Node { tag: None, value });
                },
                None => {},
            }
            if iter.next_if_eq(',').is_some() {
                *global_span = global_span.advance(',');
            }
            // An item that cannot even start (a stray `}` or `:`) would be
            // met again and again: skip it.
            if iter.index <= round {
                skip_element(global_span, iter, ']');
            }
            // The skip always passes over that character; the check makes
            // that progress, and so termination, evident.
            if iter.index <= round {
                assert(parsed_items(s, round as int, round_span, before) == (
                    None::<Seq<NodeModel>>,
                    iter.index as int,
                    *global_span,
                ));
                return None;
            }
        }
        if iter.next_if_eq(']').is_none() {
            return Some(Array { span, items });
        }
        *global_span = global_span.advance(']');
        Some(Array { span, items })
    }
}

/// `document` is what parsing `s` as a whole document gives.
pub open spec fn document_of(s: Seq<char>, document: Option<Node>) -> bool {
    parsed_document(s) == match document {
        Some(n) => Some(node_model(n)),
        None => None,
    }
}

impl Node {
    /// Try parse a source document: a value read from line 1, column 1.
    pub fn parse_document(source: &str) -> (r: Option<Node>)
        requires
            source@.len() <= isize::MAX,
        ensures
            document_of(source@, r),
            r matches Some(n) ==> n.tag is None,
    {
        let mut global_span = Span::new();
        let mut iter = CharStream::new(source);
        match Value::parse(&mut global_span, &mut iter) {
            Some(value) => Some(Node { tag: None, value }),
            None => None,
        }
    }
}

} // verus!
