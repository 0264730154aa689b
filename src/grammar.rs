//! What the parser reads from a sequence of characters, stated as spec
//! functions. Each takes the characters, the index to start at and the span
//! that tracks the current line and column, and gives the value read (if any),
//! the index after what was consumed and the span there; consumption and span
//! movement happen whether or not a value results.

use vstd::prelude::*;
use crate::span::{advanced, Span};
use crate::json::{SpannedText, ValueModel, NodeModel};
use crate::graphemes::extended_grapheme_count;

verus! {

/// The characters skipped between tokens.
pub open spec fn is_json_whitespace(c: char) -> bool {
    c == ' ' || c == '\n' || c == '\r' || c == '\t'
}

/// The characters a literal is made of: digits, `.`, `+`, `-`, `e`, `E`, and the
/// letters of `null`, `true` and `false`.
pub open spec fn is_literal_char(c: char) -> bool {
    ||| ('0' as u32 <= c as u32 && c as u32 <= '9' as u32)
    ||| c == '.' ||| c == '+' ||| c == '-' ||| c == 'e' ||| c == 'E'
    ||| c == 'n' ||| c == 'u' ||| c == 'l' ||| c == 't' ||| c == 'r'
    ||| c == 'f' ||| c == 'a' ||| c == 's'
}

/// Reading the `len - pos` characters left can move the line and column by at
/// most two for each character, so this keeps them inside `usize`. It holds
/// at line 1, column 1 for any text that fits in memory.
pub open spec fn bounded(sp: Span, len: int, pos: int) -> bool {
    sp.line >= 1 && sp.line + sp.column + 2 * (len - pos) <= usize::MAX + 1
}

/// `sp` moved one column to the right.
pub open spec fn next_column(sp: Span) -> Span {
    Span { column: (sp.column + 1) as usize, ..sp }
}

/// Skips whitespace from `pos`. A carriage return or a newline moves to the
/// start of the next line, except a newline right after a carriage return,
/// which ends the same line break; any other whitespace character moves one
/// column.
pub open spec fn skipped_whitespace(s: Seq<char>, pos: int, sp: Span, after_cr: bool) -> (int, Span)
    decreases s.len() - pos,
{
    if 0 <= pos < s.len() && is_json_whitespace(s[pos]) {
        if s[pos] == '\r' {
            skipped_whitespace(s, pos + 1, next_line(sp), true)
        } else if s[pos] == '\n' {
            if after_cr {
                skipped_whitespace(s, pos + 1, sp, false)
            } else {
                skipped_whitespace(s, pos + 1, next_line(sp), false)
            }
        } else {
            skipped_whitespace(s, pos + 1, next_column(sp), false)
        }
    } else {
        (pos, sp)
    }
}

/// `sp` moved to the start of the next line.
pub open spec fn next_line(sp: Span) -> Span {
    Span { line: (sp.line + 1) as usize, column: 1, ..sp }
}

pub open spec fn parsed_whitespace(s: Seq<char>, pos: int, sp: Span) -> (int, Span) {
    skipped_whitespace(s, pos, sp, false)
}

/// Index of the quote that closes a string body starting at `i`, or the
/// length of `s` if there is none. A backslash escapes the character after it.
pub open spec fn string_end(s: Seq<char>, i: int) -> int
    decreases s.len() - i,
{
    if i < 0 || i >= s.len() {
        s.len() as int
    } else if s[i] == '"' {
        i
    } else if s[i] == '\\' {
        if i + 1 >= s.len() {
            s.len() as int
        } else {
            string_end(s, i + 2)
        }
    } else {
        string_end(s, i + 1)
    }
}

/// A quoted string at `pos`. Its body is kept verbatim (escapes included) and
/// its width is the number of grapheme clusters of the body plus the two quotes.
pub open spec fn parsed_string(s: Seq<char>, pos: int, sp: Span) -> (Option<SpannedText>, int, Span) {
    if 0 <= pos < s.len() && s[pos] == '"' {
        let end = string_end(s, pos + 1);
        let body = s.subrange(pos + 1, end);
        let width = extended_grapheme_count(body) + 2;
        (
            Some(SpannedText { span: Span { length: width as usize, ..sp }, text: body }),
            if end < s.len() { end + 1 } else { end },
            Span { column: (sp.column + width) as usize, ..sp },
        )
    } else {
        (None, pos, sp)
    }
}

/// The index of the first character at or after `i` that cannot be part of a literal.
pub open spec fn literal_end(s: Seq<char>, i: int) -> int
    decreases s.len() - i,
{
    if 0 <= i < s.len() && is_literal_char(s[i]) {
        literal_end(s, i + 1)
    } else {
        i
    }
}

/// The longest run of literal characters at `pos`; none if the run is empty.
pub open spec fn parsed_literal(s: Seq<char>, pos: int, sp: Span) -> (Option<SpannedText>, int, Span) {
    let end = literal_end(s, pos);
    if end == pos {
        (None, pos, sp)
    } else {
        (
            Some(SpannedText { span: Span { length: (end - pos) as usize, ..sp }, text: s.subrange(pos, end) }),
            end,
            Span { column: (sp.column + (end - pos)) as usize, ..sp },
        )
    }
}

/// The end of an element that cannot be read, from `i` on: the next `,` or
/// `close` outside any nested object, array or string, or the end of the
/// text. Each character passed over moves the span by the cursor-advance rule.
pub open spec fn skipped_element(
    s: Seq<char>,
    i: int,
    sp: Span,
    close: char,
    depth: nat,
    in_string: bool,
    escaped: bool,
) -> (int, Span)
    decreases s.len() - i,
{
    if i < 0 || i >= s.len() {
        (i, sp)
    } else {
        let c = s[i];
        let next = advanced(sp, c);
        if in_string {
            if escaped {
                skipped_element(s, i + 1, next, close, depth, true, false)
            } else if c == '\\' {
                skipped_element(s, i + 1, next, close, depth, true, true)
            } else if c == '"' {
                skipped_element(s, i + 1, next, close, depth, false, false)
            } else {
                skipped_element(s, i + 1, next, close, depth, true, false)
            }
        } else if c == '"' {
            skipped_element(s, i + 1, next, close, depth, true, false)
        } else if c == '{' || c == '[' {
            skipped_element(s, i + 1, next, close, depth + 1, false, false)
        } else if (c == close || c == ',') && depth == 0 {
            (i, sp)
        } else if (c == '}' || c == ']') && depth > 0 {
            skipped_element(s, i + 1, next, close, (depth - 1) as nat, false, false)
        } else {
            skipped_element(s, i + 1, next, close, depth, false, false)
        }
    }
}

/// Recovery from an element that cannot be read at `i`, in a container that
/// ends with `close`: skip it, and the comma after it if there is one.
pub open spec fn recovered(s: Seq<char>, i: int, sp: Span, close: char) -> (int, Span) {
    let (e, q) = skipped_element(s, i, sp, close, 0, false, false);
    parsed_comma(s, e, q)
}

/// An optional separating comma at `pos`.
pub open spec fn parsed_comma(s: Seq<char>, pos: int, sp: Span) -> (int, Span) {
    if 0 <= pos < s.len() && s[pos] == ',' {
        (pos + 1, next_column(sp))
    } else {
        (pos, sp)
    }
}

pub proof fn lemma_whitespace_bounds(s: Seq<char>, pos: int, sp: Span, after_cr: bool)
    requires
        0 <= pos <= s.len(),
    ensures
        pos <= skipped_whitespace(s, pos, sp, after_cr).0 <= s.len(),
    decreases s.len() - pos,
{
    if 0 <= pos < s.len() && is_json_whitespace(s[pos]) {
        if s[pos] == '\r' {
            lemma_whitespace_bounds(s, pos + 1, next_line(sp), true);
        } else if s[pos] == '\n' {
            if after_cr {
                lemma_whitespace_bounds(s, pos + 1, sp, false);
            } else {
                lemma_whitespace_bounds(s, pos + 1, next_line(sp), false);
            }
        } else {
            lemma_whitespace_bounds(s, pos + 1, next_column(sp), false);
        }
    }
}

pub proof fn lemma_string_end_bounds(s: Seq<char>, i: int)
    requires
        0 <= i <= s.len(),
    ensures
        i <= string_end(s, i) <= s.len(),
        string_end(s, i) < s.len() ==> s[string_end(s, i)] == '"',
    decreases s.len() - i,
{
    if i < s.len() && s[i] != '"' {
        if s[i] == '\\' {
            if i + 1 < s.len() {
                lemma_string_end_bounds(s, i + 2);
            }
        } else {
            lemma_string_end_bounds(s, i + 1);
        }
    }
}

pub proof fn lemma_literal_end_bounds(s: Seq<char>, i: int)
    requires
        0 <= i <= s.len(),
    ensures
        i <= literal_end(s, i) <= s.len(),
        forall|k: int| i <= k < literal_end(s, i) ==> is_literal_char(#[trigger] s[k]),
        literal_end(s, i) < s.len() ==> !is_literal_char(s[literal_end(s, i)]),
    decreases s.len() - i,
{
    if 0 <= i < s.len() && is_literal_char(s[i]) {
        lemma_literal_end_bounds(s, i + 1);
    }
}

pub proof fn lemma_string_bounds(s: Seq<char>, pos: int, sp: Span)
    requires
        0 <= pos <= s.len(),
    ensures
        pos <= parsed_string(s, pos, sp).1 <= s.len(),
        parsed_string(s, pos, sp).0 is Some ==> pos < parsed_string(s, pos, sp).1,
{
    if 0 <= pos < s.len() && s[pos] == '"' {
        lemma_string_end_bounds(s, pos + 1);
    }
}

/// A value at `pos`, surrounded by optional whitespace.
pub open spec fn parsed_value(s: Seq<char>, pos: int, sp: Span) -> (Option<ValueModel>, int, Span)
    decreases s.len() - pos, 2int,
    when 0 <= pos <= s.len()
{
    let (p1, sp1) = parsed_whitespace(s, pos, sp);
    proof {
        lemma_whitespace_bounds(s, pos, sp, false);
    }
    if p1 >= s.len() {
        (None, p1, sp1)
    } else {
        let (r, p2, sp2) = if s[p1] == '"' {
            let (t, p, q) = parsed_string(s, p1, sp1);
            (
                match t {
                    Some(t) => Some(ValueModel::Str(t)),
                    None => None,
                },
                p,
                q,
            )
        } else if s[p1] == '{' {
            parsed_object(s, p1, sp1)
        } else if s[p1] == '[' {
            parsed_array(s, p1, sp1)
        } else {
            let (t, p, q) = parsed_literal(s, p1, sp1);
            (
                match t {
                    Some(t) => Some(ValueModel::Lit(t)),
                    None => None,
                },
                p,
                q,
            )
        };
        match r {
            Some(v) => {
                let (p3, sp3) = parsed_whitespace(s, p2, sp2);
                (Some(v), p3, sp3)
            },
            None => (None, p2, sp2),
        }
    }
}

/// An object at `pos`: its span is that of the opening brace.
pub open spec fn parsed_object(s: Seq<char>, pos: int, sp: Span) -> (Option<ValueModel>, int, Span)
    decreases s.len() - pos, 1int,
    when 0 <= pos <= s.len()
{
    if pos < s.len() && s[pos] == '{' {
        let (r, p, q) = parsed_members(s, pos + 1, next_column(sp), Seq::empty());
        (
            match r {
                Some(members) => Some(ValueModel::Obj(Span { length: 1, ..sp }, members)),
                None => None,
            },
            p,
            q,
        )
    } else {
        (None, pos, sp)
    }
}

/// The members of an object from `pos` to its closing brace, after the members
/// `acc` already read. A member whose value cannot be read is left out; a
/// member without a tag or a colon is skipped up to the next comma or closing
/// brace; at the end of the text the members read so far are kept, as if the
/// object had been closed there.
pub open spec fn parsed_members(s: Seq<char>, pos: int, sp: Span, acc: Seq<NodeModel>) -> (
    Option<Seq<NodeModel>>,
    int,
    Span,
)
    decreases s.len() - pos, 3int,
    when 0 <= pos <= s.len()
{
    if pos < s.len() && s[pos] != '}' {
        let (p1, sp1) = parsed_whitespace(s, pos, sp);
        proof {
            lemma_whitespace_bounds(s, pos, sp, false);
            lemma_string_bounds(s, p1, sp1);
        }
        let (t, p2, sp2) = parsed_string(s, p1, sp1);
        match t {
            None => {
                let (p5, sp5) = recovered(s, p1, sp1, '}');
                if p5 <= pos || p5 > s.len() {
                    (None, p5, sp5)
                } else {
                    parsed_members(s, p5, sp5, acc)
                }
            },
            Some(tag) => {
                let (p3, sp3) = parsed_whitespace(s, p2, sp2);
                proof {
                    lemma_whitespace_bounds(s, p2, sp2, false);
                }
                if p3 < s.len() && s[p3] == ':' {
                    let (v, p4, sp4) = parsed_value(s, p3 + 1, next_column(sp3));
                    let members = match v {
                        Some(v) => acc.push(NodeModel { tag: Some(tag), value: v }),
                        None => acc,
                    };
                    let (p5, sp5) = parsed_comma(s, p4, sp4);
                    if p5 <= pos || p5 > s.len() {
                        (None, p5, sp5)
                    } else {
                        parsed_members(s, p5, sp5, members)
                    }
                } else {
                    let (p5, sp5) = recovered(s, p3, sp3, '}');
                    if p5 <= pos || p5 > s.len() {
                        (None, p5, sp5)
                    } else {
                        parsed_members(s, p5, sp5, acc)
                    }
                }
            },
        }
    } else if pos < s.len() {
        (Some(acc), pos + 1, next_column(sp))
    } else {
        (Some(acc), pos, sp)
    }
}

/// An array at `pos`: its span is that of the opening bracket.
pub open spec fn parsed_array(s: Seq<char>, pos: int, sp: Span) -> (Option<ValueModel>, int, Span)
    decreases s.len() - pos, 1int,
    when 0 <= pos <= s.len()
{
    if pos < s.len() && s[pos] == '[' {
        let (r, p, q) = parsed_items(s, pos + 1, next_column(sp), Seq::empty());
        (
            match r {
                Some(items) => Some(ValueModel::Arr(Span { length: 1, ..sp }, items)),
                None => None,
            },
            p,
            q,
        )
    } else {
        (None, pos, sp)
    }
}

/// The items of an array from `pos` to its closing bracket, after the items
/// `acc` already read. An item that cannot be read is left out; an item that
/// cannot even start is skipped up to the next comma or closing bracket; at
/// the end of the text the items read so far are kept, as if the array had
/// been closed there.
pub open spec fn parsed_items(s: Seq<char>, pos: int, sp: Span, acc: Seq<NodeModel>) -> (
    Option<Seq<NodeModel>>,
    int,
    Span,
)
    decreases s.len() - pos, 3int,
    when 0 <= pos <= s.len()
{
    if pos < s.len() && s[pos] != ']' {
        let (p1, sp1) = parsed_whitespace(s, pos, sp);
        proof {
            lemma_whitespace_bounds(s, pos, sp, false);
        }
        let (v, p2, sp2) = parsed_value(s, p1, sp1);
        let items = match v {
            Some(v) => acc.push(NodeModel { tag: None, value: v }),
            None => acc,
        };
        let (p3, sp3) = parsed_comma(s, p2, sp2);
        let (p4, sp4) = if p3 <= pos {
            recovered(s, p3, sp3, ']')
        } else {
            (p3, sp3)
        };
        if p4 <= pos || p4 > s.len() {
            (None, p4, sp4)
        } else {
            parsed_items(s, p4, sp4, items)
        }
    } else if pos < s.len() {
        (Some(acc), pos + 1, next_column(sp))
    } else {
        (Some(acc), pos, sp)
    }
}

/// A whole document: a value read from the first character at line 1, column 1.
pub open spec fn parsed_document(s: Seq<char>) -> Option<NodeModel> {
    match parsed_value(s, 0, Span { line: 1, column: 1, length: 1 }).0 {
        Some(v) => Some(NodeModel { tag: None, value: v }),
        None => None,
    }
}

/// A string is as wide as the grapheme clusters of its body plus its two
/// quotes, whatever the characters of the body are, and the position moves
/// on by that width.
pub proof fn lemma_string_width(s: Seq<char>, pos: int, sp: Span)
    requires
        0 <= pos < s.len(),
        s[pos] == '"',
        sp.column + extended_grapheme_count(s.subrange(pos + 1, string_end(s, pos + 1))) + 2 <= usize::MAX,
    ensures
        ({
            let body = s.subrange(pos + 1, string_end(s, pos + 1));
            let (t, _, after) = parsed_string(s, pos, sp);
            &&& t matches Some(t) && t.text == body && t.span.length == extended_grapheme_count(body) + 2
            &&& after.column == sp.column + extended_grapheme_count(body) + 2
            &&& after.line == sp.line
        }),
{
}

pub proof fn lemma_skipped_element_bounds(
    s: Seq<char>,
    i: int,
    sp: Span,
    close: char,
    depth: nat,
    in_string: bool,
    escaped: bool,
)
    requires
        0 <= i <= s.len(),
        close == '}' || close == ']',
    ensures
        i <= skipped_element(s, i, sp, close, depth, in_string, escaped).0 <= s.len(),
        i < s.len() && (in_string || depth > 0 || (s[i] != close && s[i] != ',')) ==> i < skipped_element(
            s,
            i,
            sp,
            close,
            depth,
            in_string,
            escaped,
        ).0,
    decreases s.len() - i,
{
    if i < s.len() {
        let c = s[i];
        let next = advanced(sp, c);
        if in_string {
            if escaped {
                lemma_skipped_element_bounds(s, i + 1, next, close, depth, true, false);
            } else if c == '\\' {
                lemma_skipped_element_bounds(s, i + 1, next, close, depth, true, true);
            } else if c == '"' {
                lemma_skipped_element_bounds(s, i + 1, next, close, depth, false, false);
            } else {
                lemma_skipped_element_bounds(s, i + 1, next, close, depth, true, false);
            }
        } else if c == '"' {
            lemma_skipped_element_bounds(s, i + 1, next, close, depth, true, false);
        } else if c == '{' || c == '[' {
            lemma_skipped_element_bounds(s, i + 1, next, close, depth + 1, false, false);
        } else if (c == close || c == ',') && depth == 0 {
        } else if (c == '}' || c == ']') && depth > 0 {
            lemma_skipped_element_bounds(s, i + 1, next, close, (depth - 1) as nat, false, false);
        } else {
            lemma_skipped_element_bounds(s, i + 1, next, close, depth, false, false);
        }
    }
}

/// Recovery never goes back, and it always moves past a character that is
/// not the closing bracket.
pub proof fn lemma_recovered_bounds(s: Seq<char>, i: int, sp: Span, close: char)
    requires
        0 <= i <= s.len(),
        close == '}' || close == ']',
    ensures
        i <= recovered(s, i, sp, close).0 <= s.len(),
        i < s.len() && s[i] != close ==> i < recovered(s, i, sp, close).0,
{
    lemma_skipped_element_bounds(s, i, sp, close, 0, false, false);
}

/// Reading a value never goes back and stays within the text.
pub proof fn lemma_value_forward(s: Seq<char>, pos: int, sp: Span)
    requires
        0 <= pos <= s.len(),
    ensures
        pos <= parsed_value(s, pos, sp).1 <= s.len(),
    decreases s.len() - pos, 2int,
{
    lemma_whitespace_bounds(s, pos, sp, false);
    let (p1, sp1) = parsed_whitespace(s, pos, sp);
    if p1 < s.len() {
        let (r, p2, sp2) = if s[p1] == '"' {
            lemma_string_bounds(s, p1, sp1);
            let (t, p, q) = parsed_string(s, p1, sp1);
            (
                match t {
                    Some(t) => Some(ValueModel::Str(t)),
                    None => None,
                },
                p,
                q,
            )
        } else if s[p1] == '{' {
            lemma_object_forward(s, p1, sp1);
            parsed_object(s, p1, sp1)
        } else if s[p1] == '[' {
            lemma_array_forward(s, p1, sp1);
            parsed_array(s, p1, sp1)
        } else {
            lemma_literal_end_bounds(s, p1);
            let (t, p, q) = parsed_literal(s, p1, sp1);
            (
                match t {
                    Some(t) => Some(ValueModel::Lit(t)),
                    None => None,
                },
                p,
                q,
            )
        };
        lemma_whitespace_bounds(s, p2, sp2, false);
    }
}

/// An object that has started is always read: a member that cannot be read
/// is skipped and never takes the object down with it.
pub proof fn lemma_object_forward(s: Seq<char>, pos: int, sp: Span)
    requires
        0 <= pos <= s.len(),
    ensures
        pos <= parsed_object(s, pos, sp).1 <= s.len(),
        pos < s.len() && s[pos] == '{' ==> parsed_object(s, pos, sp).0 is Some,
    decreases s.len() - pos, 1int,
{
    if pos < s.len() && s[pos] == '{' {
        lemma_members_kept(s, pos + 1, next_column(sp), Seq::empty());
    }
}

/// An array that has started is always read: an item that cannot be read is
/// skipped and never takes the array down with it.
pub proof fn lemma_array_forward(s: Seq<char>, pos: int, sp: Span)
    requires
        0 <= pos <= s.len(),
    ensures
        pos <= parsed_array(s, pos, sp).1 <= s.len(),
        pos < s.len() && s[pos] == '[' ==> parsed_array(s, pos, sp).0 is Some,
    decreases s.len() - pos, 1int,
{
    if pos < s.len() && s[pos] == '[' {
        lemma_items_kept(s, pos + 1, next_column(sp), Seq::empty());
    }
}

/// Reading members always succeeds and keeps, in order, every member read
/// before: a malformed member never discards its siblings.
pub proof fn lemma_members_kept(s: Seq<char>, pos: int, sp: Span, acc: Seq<NodeModel>)
    requires
        0 <= pos <= s.len(),
    ensures
        pos <= parsed_members(s, pos, sp, acc).1 <= s.len(),
        parsed_members(s, pos, sp, acc).0 matches Some(r) && acc.len() <= r.len() && r.take(acc.len() as int)
            == acc,
    decreases s.len() - pos, 3int,
{
    if pos < s.len() && s[pos] != '}' {
        lemma_whitespace_bounds(s, pos, sp, false);
        let (p1, sp1) = parsed_whitespace(s, pos, sp);
        lemma_string_bounds(s, p1, sp1);
        let (t, p2, sp2) = parsed_string(s, p1, sp1);
        match t {
            None => {
                lemma_recovered_bounds(s, p1, sp1, '}');
                let (p5, sp5) = recovered(s, p1, sp1, '}');
                lemma_members_kept(s, p5, sp5, acc);
            },
            Some(tag) => {
                lemma_whitespace_bounds(s, p2, sp2, false);
                let (p3, sp3) = parsed_whitespace(s, p2, sp2);
                if p3 < s.len() && s[p3] == ':' {
                    lemma_value_forward(s, p3 + 1, next_column(sp3));
                    let (v, p4, sp4) = parsed_value(s, p3 + 1, next_column(sp3));
                    let members = match v {
                        Some(v) => acc.push(NodeModel { tag: Some(tag), value: v }),
                        None => acc,
                    };
                    let (p5, sp5) = parsed_comma(s, p4, sp4);
                    lemma_members_kept(s, p5, sp5, members);
                    let r = parsed_members(s, p5, sp5, members).0->0;
                    assert(r.take(acc.len() as int) =~= r.take(members.len() as int).take(acc.len() as int));
                    assert(members.take(acc.len() as int) =~= acc);
                } else {
                    lemma_recovered_bounds(s, p3, sp3, '}');
                    let (p5, sp5) = recovered(s, p3, sp3, '}');
                    lemma_members_kept(s, p5, sp5, acc);
                }
            },
        }
    } else {
        assert(acc.take(acc.len() as int) =~= acc);
    }
}

/// Reading items always succeeds and keeps, in order, every item read
/// before: an item that cannot be read never discards its siblings.
pub proof fn lemma_items_kept(s: Seq<char>, pos: int, sp: Span, acc: Seq<NodeModel>)
    requires
        0 <= pos <= s.len(),
    ensures
        pos <= parsed_items(s, pos, sp, acc).1 <= s.len(),
        parsed_items(s, pos, sp, acc).0 matches Some(r) && acc.len() <= r.len() && r.take(acc.len() as int)
            == acc,
    decreases s.len() - pos, 3int,
{
    if pos < s.len() && s[pos] != ']' {
        lemma_whitespace_bounds(s, pos, sp, false);
        let (p1, sp1) = parsed_whitespace(s, pos, sp);
        lemma_value_forward(s, p1, sp1);
        let (v, p2, sp2) = parsed_value(s, p1, sp1);
        let items = match v {
            Some(v) => acc.push(NodeModel { tag: None, value: v }),
            None => acc,
        };
        let (p3, sp3) = parsed_comma(s, p2, sp2);
        lemma_recovered_bounds(s, p3, sp3, ']');
        let (p4, sp4) = if p3 <= pos {
            recovered(s, p3, sp3, ']')
        } else {
            (p3, sp3)
        };
        lemma_items_kept(s, p4, sp4, items);
        let r = parsed_items(s, p4, sp4, items).0->0;
        assert(r.take(acc.len() as int) =~= r.take(items.len() as int).take(acc.len() as int));
        assert(items.take(acc.len() as int) =~= acc);
    } else {
        assert(acc.take(acc.len() as int) =~= acc);
    }
}

/// A member without a tag is passed over: reading goes on after it as if it
/// had not been there, with the members read so far.
pub proof fn lemma_untagged_member_skipped(s: Seq<char>, pos: int, sp: Span, acc: Seq<NodeModel>)
    requires
        0 <= pos < s.len(),
        s[pos] != '}',
        parsed_string(s, parsed_whitespace(s, pos, sp).0, parsed_whitespace(s, pos, sp).1).0 is None,
    ensures
        ({
            let (p1, sp1) = parsed_whitespace(s, pos, sp);
            let (p5, sp5) = recovered(s, p1, sp1, '}');
            parsed_members(s, pos, sp, acc) == parsed_members(s, p5, sp5, acc)
        }),
{
    lemma_whitespace_bounds(s, pos, sp, false);
    let (p1, sp1) = parsed_whitespace(s, pos, sp);
    lemma_recovered_bounds(s, p1, sp1, '}');
}

/// An item that cannot start a value is passed over: reading goes on after
/// it as if it had not been there, with the items read so far.
pub proof fn lemma_unreadable_item_skipped(s: Seq<char>, pos: int, sp: Span, acc: Seq<NodeModel>)
    requires
        0 <= pos < s.len(),
        s[pos] != ']',
        s[pos] != ',',
        !is_json_whitespace(s[pos]),
        parsed_value(s, pos, sp).0 is None,
        parsed_value(s, pos, sp).1 == pos,
    ensures
        ({
            let (p4, sp4) = recovered(s, pos, parsed_value(s, pos, sp).2, ']');
            parsed_items(s, pos, sp, acc) == parsed_items(s, p4, sp4, acc)
        }),
{
    assert(parsed_whitespace(s, pos, sp) == (pos, sp));
    lemma_recovered_bounds(s, pos, parsed_value(s, pos, sp).2, ']');
}

/// A document whose first token opens an object is always read.
pub proof fn lemma_object_document_read(s: Seq<char>)
    requires
        ({
            let p = parsed_whitespace(s, 0, Span { line: 1, column: 1, length: 1 }).0;
            0 <= p < s.len() && s[p] == '{'
        }),
    ensures
        parsed_document(s) is Some,
{
    let sp = Span { line: 1, column: 1, length: 1 };
    lemma_whitespace_bounds(s, 0, sp, false);
    let (p1, sp1) = parsed_whitespace(s, 0, sp);
    lemma_object_forward(s, p1, sp1);
}

} // verus!
