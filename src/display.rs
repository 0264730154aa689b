//! The compact JSON text of a parsed tree, and the law that reading that text
//! again gives back a tree of the same shape.

use vstd::prelude::*;
use crate::json::{node_model, nodes_model, value_model, Node, NodeModel, Value, ValueModel};
use crate::text::push_char;
use crate::span::Span;
use crate::grammar::{
    is_json_whitespace, is_literal_char, lemma_literal_end_bounds, lemma_string_end_bounds,
    lemma_whitespace_bounds, literal_end, next_column, parsed_array, parsed_comma, parsed_document,
    parsed_items, parsed_literal, parsed_members, parsed_object, parsed_string, parsed_value,
    parsed_whitespace, skipped_whitespace, string_end,
};

verus! {

/// `t` between double quotes.
pub open spec fn quoted(t: Seq<char>) -> Seq<char> {
    seq!['"'] + t + seq!['"']
}

/// `"tag": ` for a tag, nothing without one.
pub open spec fn tag_text(tag: Option<crate::json::SpannedText>) -> Seq<char> {
    match tag {
        Some(t) => quoted(t.text) + seq![':', ' '],
        None => Seq::empty(),
    }
}

/// The text of a node: its tag, if any, as `"tag": `, then its value.
pub open spec fn node_text(n: NodeModel) -> Seq<char>
    decreases n, 0nat,
{
    tag_text(n.tag) + value_text(n.value)
}

/// The text of a value: strings quoted, literals as they are, objects and
/// arrays as their members or items between brackets, separated by commas.
pub open spec fn value_text(v: ValueModel) -> Seq<char>
    decreases v, 0nat,
{
    match v {
        ValueModel::Str(t) => quoted(t.text),
        ValueModel::Lit(t) => t.text,
        ValueModel::Obj(_, ms) => seq!['{'] + nodes_text(ms, 0) + seq!['}'],
        ValueModel::Arr(_, ms) => seq!['['] + nodes_text(ms, 0) + seq![']'],
    }
}

/// The texts of `ms[i..]`, separated by commas.
pub open spec fn nodes_text(ms: Seq<NodeModel>, i: nat) -> Seq<char>
    decreases ms, ms.len() - i,
{
    if i < ms.len() {
        node_text(ms[i as int]) + (if i + 1 < ms.len() {
            seq![','] + nodes_text(ms, i + 1)
        } else {
            Seq::empty()
        })
    } else {
        Seq::empty()
    }
}

pub proof fn lemma_nodes_model_index(ns: Seq<Node>)
    ensures
        nodes_model(ns).len() == ns.len(),
        forall|i: int| 0 <= i < ns.len() ==> #[trigger] nodes_model(ns)[i] == node_model(ns[i]),
    decreases ns.len(),
{
    if ns.len() > 0 {
        lemma_nodes_model_index(ns.drop_last());
    }
}

fn push_node(out: &mut String, n: &Node)
    ensures
        final(out)@ == old(out)@ + node_text(node_model(*n)),
    decreases *n, 0nat,
{
    match &n.tag {
        Some(t) => {
            push_char(out, '"');
            out.append(t.value.as_str());
            push_char(out, '"');
            push_char(out, ':');
            push_char(out, ' ');
        },
        None => {},
    }
    push_value(out, &n.value);
    assert(out@ =~= old(out)@ + node_text(node_model(*n)));
}

fn push_value(out: &mut String, v: &Value)
    ensures
        final(out)@ == old(out)@ + value_text(value_model(*v)),
    decreases *v, 0nat,
{
    match v {
        Value::String(s) => {
            push_char(out, '"');
            out.append(s.value.as_str());
            push_char(out, '"');
        },
        Value::Literal(l) => {
            out.append(l.value.as_str());
        },
        Value::Object(o) => {
            push_char(out, '{');
            proof {
                lemma_nodes_model_index(o.properties@);
            }
            push_nodes(out, &o.properties, 0);
            push_char(out, '}');
        },
        Value::Array(a) => {
            push_char(out, '[');
            proof {
                lemma_nodes_model_index(a.items@);
            }
            push_nodes(out, &a.items, 0);
            push_char(out, ']');
        },
    }
    assert(out@ =~= old(out)@ + value_text(value_model(*v)));
}

fn push_nodes(out: &mut String, ns: &Vec<Node>, i: usize)
    requires
        i <= ns@.len(),
    ensures
        final(out)@ == old(out)@ + nodes_text(nodes_model(ns@), i as nat),
    decreases *ns, ns@.len() - i,
{
    proof {
        lemma_nodes_model_index(ns@);
    }
    if i < ns.len() {
        push_node(out, &ns[i]);
        if i + 1 < ns.len() {
            push_char(out, ',');
            push_nodes(out, ns, i + 1);
        }
    }
    assert(out@ =~= old(out)@ + nodes_text(nodes_model(ns@), i as nat));
}

impl Node {
    /// The node as compact JSON text: a tag as `"tag": `, strings in quotes
    /// with their escapes as read, members and items separated by commas.
    pub fn to_json(&self) -> (r: String)
        ensures
            r@ == node_text(node_model(*self)),
    {
        let mut out = String::new();
        push_node(&mut out, self);
        assert(out@ =~= node_text(node_model(*self)));
        out
    }
}

/// A string body that a closing quote right after it would end: every quote
/// in it is escaped and it does not end in an unpaired backslash.
pub open spec fn closed_body(b: Seq<char>) -> bool {
    string_end(b.push('"'), 0) == b.len()
}

/// Whether the text of `v` reads back as `v`: string bodies are closed and
/// literals are non-empty runs of literal characters, members have tags and
/// items do not.
pub open spec fn printable_value(v: ValueModel) -> bool
    decreases v, 0nat,
{
    match v {
        ValueModel::Str(t) => closed_body(t.text),
        ValueModel::Lit(t) => t.text.len() > 0 && forall|k: int| 0 <= k < t.text.len() ==> is_literal_char(#[trigger] t.text[k]),
        ValueModel::Obj(_, ms) => printable_nodes(ms, 0, true),
        ValueModel::Arr(_, ms) => printable_nodes(ms, 0, false),
    }
}

pub open spec fn printable_nodes(ms: Seq<NodeModel>, i: nat, tagged: bool) -> bool
    decreases ms, ms.len() - i,
{
    if i < ms.len() {
        printable_node(ms[i as int], tagged) && printable_nodes(ms, i + 1, tagged)
    } else {
        true
    }
}

pub open spec fn printable_node(n: NodeModel, tagged: bool) -> bool
    decreases n, 0nat,
{
    (if tagged {
        n.tag matches Some(t) && closed_body(t.text)
    } else {
        n.tag is None
    }) && printable_value(n.value)
}

/// `a` and `b` hold the same values, tags, nesting and order; only their
/// spans may differ.
pub open spec fn same_value_shape(a: ValueModel, b: ValueModel) -> bool
    decreases a, 0nat,
{
    match a {
        ValueModel::Str(x) => b matches ValueModel::Str(y) && x.text == y.text,
        ValueModel::Lit(x) => b matches ValueModel::Lit(y) && x.text == y.text,
        ValueModel::Obj(_, xs) => b matches ValueModel::Obj(_, ys) && same_nodes_shape(xs, ys, 0),
        ValueModel::Arr(_, xs) => b matches ValueModel::Arr(_, ys) && same_nodes_shape(xs, ys, 0),
    }
}

pub open spec fn same_nodes_shape(xs: Seq<NodeModel>, ys: Seq<NodeModel>, i: nat) -> bool
    decreases xs, xs.len() - i,
{
    xs.len() == ys.len() && if i < xs.len() {
        same_node_shape(xs[i as int], ys[i as int]) && same_nodes_shape(xs, ys, i + 1)
    } else {
        true
    }
}

pub open spec fn same_node_shape(x: NodeModel, y: NodeModel) -> bool
    decreases x, 0nat,
{
    (match x.tag {
        Some(t) => y.tag matches Some(u) && t.text == u.text,
        None => y.tag is None,
    }) && same_value_shape(x.value, y.value)
}

proof fn lemma_same_nodes_shape(xs: Seq<NodeModel>, ys: Seq<NodeModel>, i: nat)
    requires
        i <= xs.len(),
        xs.len() == ys.len(),
        forall|j: int| i <= j < xs.len() ==> same_node_shape(#[trigger] xs[j], ys[j]),
    ensures
        same_nodes_shape(xs, ys, i),
    decreases xs.len() - i,
{
    if i < xs.len() {
        lemma_same_nodes_shape(xs, ys, i + 1);
    }
}

/// A value's text may be followed by the end of the text or by a delimiter.
pub open spec fn may_follow(s: Seq<char>, e: int) -> bool {
    e == s.len() || (0 <= e < s.len() && (s[e] == ',' || s[e] == '}' || s[e] == ']'))
}

proof fn lemma_string_end_shift(s: Seq<char>, i: int, t: Seq<char>, k: int)
    requires
        0 <= i,
        i + t.len() <= s.len(),
        s.subrange(i, i + t.len()) == t,
        0 <= k <= t.len(),
        string_end(t, k) < t.len(),
    ensures
        string_end(s, i + k) == i + string_end(t, k),
    decreases t.len() - k,
{
    assert(s[i + k] == t[k]);
    if t[k] == '"' {
    } else if t[k] == '\\' {
        assert(s[i + k + 1] == t[k + 1]);
        lemma_string_end_shift(s, i, t, k + 2);
    } else {
        lemma_string_end_shift(s, i, t, k + 1);
    }
}

proof fn lemma_literal_end_at(s: Seq<char>, pos: int, t: Seq<char>, k: int)
    requires
        0 <= pos,
        pos + t.len() <= s.len(),
        s.subrange(pos, pos + t.len()) == t,
        forall|j: int| 0 <= j < t.len() ==> is_literal_char(#[trigger] t[j]),
        may_follow(s, pos + t.len()),
        0 <= k <= t.len(),
    ensures
        literal_end(s, pos + k) == pos + t.len(),
    decreases t.len() - k,
{
    if k < t.len() {
        assert(s[pos + k] == t[k]);
        lemma_literal_end_at(s, pos, t, k + 1);
    }
}

proof fn lemma_value_after_space(s: Seq<char>, p: int, sp: Span)
    requires
        0 <= p < s.len(),
        s[p] == ' ',
    ensures
        parsed_value(s, p, sp) == parsed_value(s, p + 1, next_column(sp)),
{
    assert(parsed_whitespace(s, p, sp) == parsed_whitespace(s, p + 1, next_column(sp)));
}

proof fn lemma_piece(s: Seq<char>, pos: int, text: Seq<char>, a: int, b: int)
    requires
        0 <= pos,
        pos + text.len() <= s.len(),
        s.subrange(pos, pos + text.len()) == text,
        0 <= a <= b <= text.len(),
    ensures
        s.subrange(pos + a, pos + b) == text.subrange(a, b),
        a < text.len() ==> s[pos + a] == text[a],
{
    assert forall|k: int| 0 <= k < b - a implies #[trigger] s.subrange(pos + a, pos + b)[k] == text.subrange(a, b)[k] by {
        assert(s.subrange(pos, pos + text.len())[a + k] == s[pos + a + k]);
    }
    assert(s.subrange(pos + a, pos + b) =~= text.subrange(a, b));
    if a < text.len() {
        assert(s.subrange(pos, pos + text.len())[a] == s[pos + a]);
    }
}

proof fn lemma_value_text_start(v: ValueModel)
    requires
        printable_value(v),
    ensures
        value_text(v).len() > 0,
        !is_json_whitespace(value_text(v)[0]),
        value_text(v)[0] != ']',
        value_text(v)[0] != '}',
        value_text(v)[0] != ',',
{
    match v {
        ValueModel::Lit(t) => {
            assert(is_literal_char(t.text[0]));
        },
        _ => {},
    }
}

proof fn lemma_value_round_trip(v: ValueModel, s: Seq<char>, pos: int, sp: Span)
    requires
        printable_value(v),
        0 <= pos,
        pos + value_text(v).len() <= s.len(),
        s.subrange(pos, pos + value_text(v).len()) == value_text(v),
        may_follow(s, pos + value_text(v).len()),
    ensures
        parsed_value(s, pos, sp).0 matches Some(w) && same_value_shape(w, v),
        parsed_value(s, pos, sp).1 == pos + value_text(v).len(),
    decreases v, 1nat,
{
    let text = value_text(v);
    let end = pos + text.len();
    lemma_value_text_start(v);
    lemma_piece(s, pos, text, 0, text.len() as int);
    assert(parsed_whitespace(s, pos, sp) == (pos, sp));
    assert(forall|x: Span| #[trigger] parsed_whitespace(s, end, x) == (end, x));
    match v {
        ValueModel::Str(t) => {
            let b = t.text;
            let bl = b.len() as int;
            lemma_piece(s, pos, text, 1, bl + 2);
            assert(text.subrange(1, bl + 2) =~= b.push('"'));
            lemma_string_end_shift(s, pos + 1, b.push('"'), 0);
            lemma_piece(s, pos, text, 1, bl + 1);
            assert(text.subrange(1, bl + 1) =~= b);
        },
        ValueModel::Lit(t) => {
            assert(is_literal_char(t.text[0]));
            lemma_literal_end_at(s, pos, t.text, 0);
        },
        ValueModel::Obj(_, ms) => {
            let inner = nodes_text(ms, 0);
            let il = inner.len() as int;
            lemma_piece(s, pos, text, 1, il + 1);
            assert(text.subrange(1, il + 1) =~= inner);
            lemma_piece(s, pos, text, il + 1, il + 1);
            lemma_members_round_trip(ms, 0, s, pos + 1, next_column(sp), Seq::empty());
            let r = parsed_members(s, pos + 1, next_column(sp), Seq::empty()).0->0;
            assert forall|j: int| 0 <= j < r.len() implies same_node_shape(#[trigger] r[j], ms[j]) by {
                assert(r[0 + j - 0] == r[j]);
            }
            lemma_same_nodes_shape(r, ms, 0);
        },
        ValueModel::Arr(_, ms) => {
            let inner = nodes_text(ms, 0);
            let il = inner.len() as int;
            lemma_piece(s, pos, text, 1, il + 1);
            assert(text.subrange(1, il + 1) =~= inner);
            lemma_piece(s, pos, text, il + 1, il + 1);
            lemma_items_round_trip(ms, 0, s, pos + 1, next_column(sp), Seq::empty());
            let r = parsed_items(s, pos + 1, next_column(sp), Seq::empty()).0->0;
            assert forall|j: int| 0 <= j < r.len() implies same_node_shape(#[trigger] r[j], ms[j]) by {
                assert(r[0 + j - 0] == r[j]);
            }
            lemma_same_nodes_shape(r, ms, 0);
        },
    }
}

/// The text of `ms[i..]` starts with that of `ms[i]`, followed by a comma and
/// the rest if there is more.
proof fn lemma_nodes_text_split(ms: Seq<NodeModel>, i: nat)
    requires
        i < ms.len(),
    ensures
        nodes_text(ms, i) == node_text(ms[i as int]) + (if i + 1 < ms.len() {
            seq![','] + nodes_text(ms, i + 1)
        } else {
            Seq::<char>::empty()
        }),
        i + 1 == ms.len() ==> nodes_text(ms, i + 1).len() == 0,
{
}

proof fn lemma_string_at(s: Seq<char>, pos: int, sp: Span, t: Seq<char>)
    requires
        closed_body(t),
        0 <= pos,
        pos + t.len() + 2 <= s.len(),
        s.subrange(pos, pos + t.len() + 2) == quoted(t),
    ensures
        crate::grammar::parsed_string(s, pos, sp).0 matches Some(x) && x.text == t,
        crate::grammar::parsed_string(s, pos, sp).1 == pos + t.len() + 2,
        crate::grammar::parsed_string(s, pos, sp).2.line == sp.line,
{
    let q = quoted(t);
    let tl = t.len() as int;
    lemma_piece(s, pos, q, 0, 0);
    lemma_piece(s, pos, q, 1, tl + 2);
    assert(q.subrange(1, tl + 2) =~= t.push('"'));
    lemma_string_end_shift(s, pos + 1, t.push('"'), 0);
    lemma_piece(s, pos, q, 1, tl + 1);
    assert(q.subrange(1, tl + 1) =~= t);
}

/// Reading the member `ms[i]` from its text at `pos`: the tag, the colon, the
/// value and a comma if another member follows.
proof fn lemma_member_step(ms: Seq<NodeModel>, i: nat, s: Seq<char>, pos: int, sp: Span, acc: Seq<NodeModel>) -> (res: (int, Span, NodeModel))
    requires
        i < ms.len(),
        printable_nodes(ms, i, true),
        0 <= pos,
        pos + nodes_text(ms, i).len() < s.len(),
        s.subrange(pos, pos + nodes_text(ms, i).len()) == nodes_text(ms, i),
        s[pos + nodes_text(ms, i).len()] == '}',
    ensures
        parsed_members(s, pos, sp, acc) == parsed_members(s, res.0, res.1, acc.push(res.2)),
        same_node_shape(res.2, ms[i as int]),
        res.0 == pos + node_text(ms[i as int]).len() + (if i + 1 < ms.len() { 1int } else { 0 }),
    decreases ms, ms.len() - i - 1,
{
    let whole = nodes_text(ms, i);
    let wl = whole.len() as int;
    let n = ms[i as int];
    assert(printable_node(n, true));
    let t = n.tag->0.text;
    let tl = t.len() as int;
    let vt = value_text(n.value);
    let vl = vt.len() as int;
    lemma_nodes_text_split(ms, i);
    assert(node_text(n) =~= quoted(t) + seq![':', ' '] + vt);
    let after = pos + tl + 2;
    let vend = after + 2 + vl;
    lemma_piece(s, pos, whole, 0, tl + 2);
    assert(whole.subrange(0, tl + 2) =~= quoted(t));
    assert(parsed_whitespace(s, pos, sp) == (pos, sp));
    lemma_string_at(s, pos, sp, t);
    let (tag, p2, sp2) = crate::grammar::parsed_string(s, pos, sp);
    lemma_piece(s, pos, whole, tl + 2, tl + 2);
    assert(parsed_whitespace(s, after, sp2) == (after, sp2));
    lemma_piece(s, pos, whole, tl + 3, tl + 3);
    lemma_piece(s, pos, whole, tl + 4, tl + 4 + vl);
    assert(whole.subrange(tl + 4, tl + 4 + vl) =~= vt);
    if i + 1 < ms.len() {
        lemma_piece(s, pos, whole, tl + 4 + vl, tl + 4 + vl);
    }
    assert(s[vend] == if i + 1 < ms.len() { ',' } else { '}' });
    lemma_value_after_space(s, after + 1, next_column(sp2));
    lemma_value_round_trip(n.value, s, after + 2, next_column(next_column(sp2)));
    let (v, p4, sp4) = parsed_value(s, after + 1, next_column(sp2));
    let node = NodeModel { tag: tag, value: v->0 };
    let (p5, sp5) = crate::grammar::parsed_comma(s, p4, sp4);
    (p5, sp5, node)
}

proof fn lemma_members_round_trip(
    ms: Seq<NodeModel>,
    i: nat,
    s: Seq<char>,
    pos: int,
    sp: Span,
    acc: Seq<NodeModel>,
)
    requires
        i <= ms.len(),
        printable_nodes(ms, i, true),
        0 <= pos,
        pos + nodes_text(ms, i).len() < s.len(),
        s.subrange(pos, pos + nodes_text(ms, i).len()) == nodes_text(ms, i),
        s[pos + nodes_text(ms, i).len()] == '}',
    ensures
        ({
            let (r, p, _) = parsed_members(s, pos, sp, acc);
            &&& r matches Some(r) && r.len() == acc.len() + ms.len() - i && r.take(acc.len() as int) == acc
                && forall|j: int| i <= j < ms.len() ==> same_node_shape(#[trigger] r[acc.len() + j - i], ms[j])
            &&& p == pos + nodes_text(ms, i).len() + 1
        }),
    decreases ms, ms.len() - i,
{
    let whole = nodes_text(ms, i);
    let wl = whole.len() as int;
    if i < ms.len() {
        lemma_nodes_text_split(ms, i);
        let rest = nodes_text(ms, i + 1);
        let nl = node_text(ms[i as int]).len() as int;
        let (p5, sp5, node) = lemma_member_step(ms, i, s, pos, sp, acc);
        let members = acc.push(node);
        if i + 1 < ms.len() {
            lemma_piece(s, pos, whole, nl + 1, wl);
            assert(whole.subrange(nl + 1, wl) =~= rest);
        }
        assert(p5 + rest.len() == pos + wl);
        assert(s.subrange(p5, p5 + rest.len()) =~= rest);
        lemma_members_round_trip(ms, i + 1, s, p5, sp5, members);
        let r = parsed_members(s, p5, sp5, members).0->0;
        assert(r.take(acc.len() as int) =~= acc) by {
            assert(r.take(members.len() as int) == members);
            assert(r.take(acc.len() as int) =~= r.take(members.len() as int).take(acc.len() as int));
        }
        assert forall|j: int| i <= j < ms.len() implies same_node_shape(#[trigger] r[acc.len() + j - i], ms[j]) by {
            if j == i {
                assert(r[acc.len() as int] == r.take(members.len() as int)[acc.len() as int]);
            } else {
                assert(r[acc.len() + j - i] == r[members.len() + j - (i + 1)]);
            }
        }
    } else {
        assert(s.subrange(pos, pos + wl) == whole);
        assert(acc.take(acc.len() as int) =~= acc);
    }
}

proof fn lemma_items_round_trip(
    ms: Seq<NodeModel>,
    i: nat,
    s: Seq<char>,
    pos: int,
    sp: Span,
    acc: Seq<NodeModel>,
)
    requires
        i <= ms.len(),
        printable_nodes(ms, i, false),
        0 <= pos,
        pos + nodes_text(ms, i).len() < s.len(),
        s.subrange(pos, pos + nodes_text(ms, i).len()) == nodes_text(ms, i),
        s[pos + nodes_text(ms, i).len()] == ']',
    ensures
        ({
            let (r, p, _) = parsed_items(s, pos, sp, acc);
            &&& r matches Some(r) && r.len() == acc.len() + ms.len() - i && r.take(acc.len() as int) == acc
                && forall|j: int| i <= j < ms.len() ==> same_node_shape(#[trigger] r[acc.len() + j - i], ms[j])
            &&& p == pos + nodes_text(ms, i).len() + 1
        }),
    decreases ms, ms.len() - i,
{
    let whole = nodes_text(ms, i);
    let wl = whole.len() as int;
    if i < ms.len() {
        let n = ms[i as int];
        assert(printable_node(n, false));
        let vt = value_text(n.value);
        let vl = vt.len() as int;
        lemma_nodes_text_split(ms, i);
        let rest = nodes_text(ms, i + 1);
        assert(node_text(n) =~= vt);
        lemma_value_text_start(n.value);
        let vend = pos + vt.len();
        lemma_piece(s, pos, whole, 0, vl);
        assert(whole.subrange(0, vl) =~= vt);
        assert(parsed_whitespace(s, pos, sp) == (pos, sp));
        if i + 1 < ms.len() {
            lemma_piece(s, pos, whole, vl, vl);
            lemma_piece(s, pos, whole, vl + 1, wl);
            assert(whole.subrange(vl + 1, wl) =~= rest);
        }
        assert(s[vend] == if i + 1 < ms.len() { ',' } else { ']' });
        lemma_value_round_trip(n.value, s, pos, sp);
        let (v, p2, sp2) = parsed_value(s, pos, sp);
        let items = acc.push(NodeModel { tag: None, value: v->0 });
        let (p3, sp3) = crate::grammar::parsed_comma(s, p2, sp2);
        assert(p3 + rest.len() == pos + whole.len());
        assert(s.subrange(p3, p3 + rest.len()) =~= rest);
        lemma_items_round_trip(ms, i + 1, s, p3, sp3, items);
        let r = parsed_items(s, p3, sp3, items).0->0;
        assert(parsed_items(s, pos, sp, acc) == parsed_items(s, p3, sp3, items));
        assert(r.take(acc.len() as int) =~= acc) by {
            assert(r.take(items.len() as int) == items);
            assert(r.take(acc.len() as int) =~= r.take(items.len() as int).take(acc.len() as int));
        }
        assert forall|j: int| i <= j < ms.len() implies same_node_shape(#[trigger] r[acc.len() + j - i], ms[j]) by {
            if j == i {
                assert(r[acc.len() as int] == r.take(items.len() as int)[acc.len() as int]);
            } else {
                assert(r[acc.len() + j - i] == r[items.len() + j - (i + 1)]);
            }
        }
    } else {
        assert(s[pos] == ']');
        assert(acc.take(acc.len() as int) =~= acc);
    }
}

/// Reading the text of a root value back gives a value of the same shape:
/// the same strings, literals, tags, nesting and order, with new spans.
pub proof fn lemma_display_round_trip(n: NodeModel)
    requires
        n.tag is None,
        printable_value(n.value),
    ensures
        parsed_document(node_text(n)) matches Some(m) && m.tag is None && same_value_shape(m.value, n.value),
{
    let s = node_text(n);
    assert(s =~= value_text(n.value));
    assert(s.subrange(0, s.len() as int) =~= s);
    lemma_value_round_trip(n.value, s, 0, Span { line: 1, column: 1, length: 1 });
}

proof fn lemma_closed_scan(s: Seq<char>, i: int, e: int, k: int)
    requires
        0 <= i <= e < s.len(),
        s[e] == '"',
        0 <= k <= e - i,
        string_end(s, i + k) == e,
    ensures
        string_end(s.subrange(i, e + 1), k) == e - i,
    decreases e - i - k,
{
    let t = s.subrange(i, e + 1);
    assert(t[k] == s[i + k]);
    if i + k < e {
        if s[i + k] == '\\' {
            lemma_string_end_bounds(s, i + k + 2);
            assert(t[k + 1] == s[i + k + 1]);
            lemma_closed_scan(s, i, e, k + 2);
        } else {
            lemma_closed_scan(s, i, e, k + 1);
        }
    }
}

/// A string body that ended at a closing quote is closed.
proof fn lemma_closed_from_parse(s: Seq<char>, i: int)
    requires
        0 <= i <= s.len(),
        string_end(s, i) < s.len(),
    ensures
        closed_body(s.subrange(i, string_end(s, i))),
{
    let e = string_end(s, i);
    lemma_string_end_bounds(s, i);
    lemma_closed_scan(s, i, e, 0);
    assert(s.subrange(i, e).push('"') =~= s.subrange(i, e + 1));
}

proof fn lemma_printable_nodes_forall(ms: Seq<NodeModel>, i: nat, tagged: bool)
    requires
        i <= ms.len(),
        forall|j: int| i <= j < ms.len() ==> printable_node(#[trigger] ms[j], tagged),
    ensures
        printable_nodes(ms, i, tagged),
    decreases ms.len() - i,
{
    if i < ms.len() {
        lemma_printable_nodes_forall(ms, i + 1, tagged);
    }
}

/// The text does not end in a backslash, which a string running to the end
/// of the text would leave unpaired.
pub open spec fn no_dangling_escape(s: Seq<char>) -> bool {
    s.len() == 0 || s.last() != '\\'
}

proof fn lemma_open_scan(s: Seq<char>, i: int, k: int)
    requires
        no_dangling_escape(s),
        0 <= i,
        0 <= k,
        i + k <= s.len(),
        string_end(s, i + k) == s.len(),
    ensures
        string_end(s.subrange(i, s.len() as int).push('"'), k) == s.len() - i,
    decreases s.len() - i - k,
{
    let t = s.subrange(i, s.len() as int).push('"');
    if i + k < s.len() {
        assert(t[k] == s[i + k]);
        if s[i + k] == '\\' {
            assert(t[k + 1] == s[i + k + 1]);
            lemma_open_scan(s, i, k + 2);
        } else {
            lemma_open_scan(s, i, k + 1);
        }
    } else {
        assert(t[k] == '"');
    }
}

/// Every string body the parser can read is closed when the text does not
/// end in a backslash.
proof fn lemma_parsed_body_closed(s: Seq<char>, i: int)
    requires
        no_dangling_escape(s),
        0 <= i <= s.len(),
    ensures
        closed_body(s.subrange(i, string_end(s, i))),
{
    lemma_string_end_bounds(s, i);
    if string_end(s, i) < s.len() {
        lemma_closed_from_parse(s, i);
    } else {
        lemma_open_scan(s, i, 0);
    }
}

/// What the parser reads from a text that does not end in a backslash is printable.
proof fn lemma_value_printable(s: Seq<char>, pos: int, sp: Span)
    requires
        no_dangling_escape(s),
        0 <= pos <= s.len(),
    ensures
        parsed_value(s, pos, sp).0 matches Some(v) ==> printable_value(v),
    decreases s.len() - pos, 2int,
{
    lemma_whitespace_bounds(s, pos, sp, false);
    let (p1, sp1) = parsed_whitespace(s, pos, sp);
    if p1 < s.len() {
        if s[p1] == '"' {
            lemma_parsed_body_closed(s, p1 + 1);
        } else if s[p1] == '{' {
            lemma_object_printable(s, p1, sp1);
        } else if s[p1] == '[' {
            lemma_array_printable(s, p1, sp1);
        } else {
            lemma_literal_end_bounds(s, p1);
        }
    }
}

proof fn lemma_object_printable(s: Seq<char>, pos: int, sp: Span)
    requires
        no_dangling_escape(s),
        0 <= pos <= s.len(),
    ensures
        parsed_object(s, pos, sp).0 matches Some(v) ==> printable_value(v),
    decreases s.len() - pos, 1int,
{
    if pos < s.len() && s[pos] == '{' {
        lemma_members_printable(s, pos + 1, next_column(sp), Seq::empty());
        let r = parsed_members(s, pos + 1, next_column(sp), Seq::empty()).0;
        if r is Some {
            lemma_printable_nodes_forall(r->0, 0, true);
        }
    }
}

proof fn lemma_array_printable(s: Seq<char>, pos: int, sp: Span)
    requires
        no_dangling_escape(s),
        0 <= pos <= s.len(),
    ensures
        parsed_array(s, pos, sp).0 matches Some(v) ==> printable_value(v),
    decreases s.len() - pos, 1int,
{
    if pos < s.len() && s[pos] == '[' {
        lemma_items_printable(s, pos + 1, next_column(sp), Seq::empty());
        let r = parsed_items(s, pos + 1, next_column(sp), Seq::empty()).0;
        if r is Some {
            lemma_printable_nodes_forall(r->0, 0, false);
        }
    }
}

proof fn lemma_members_printable(s: Seq<char>, pos: int, sp: Span, acc: Seq<NodeModel>)
    requires
        no_dangling_escape(s),
        0 <= pos <= s.len(),
    ensures
        parsed_members(s, pos, sp, acc).0 matches Some(r) ==> ((forall|j: int|
            0 <= j < acc.len() ==> printable_node(#[trigger] acc[j], true)) ==> forall|j: int|
            0 <= j < r.len() ==> printable_node(#[trigger] r[j], true)),
    decreases s.len() - pos, 3int,
{
    if pos < s.len() && s[pos] != '}' {
        lemma_whitespace_bounds(s, pos, sp, false);
        let (p1, sp1) = parsed_whitespace(s, pos, sp);
        let (t, p2, sp2) = parsed_string(s, p1, sp1);
        if t is Some {
            lemma_string_end_bounds(s, p1 + 1);
            lemma_whitespace_bounds(s, p2, sp2, false);
            let (p3, sp3) = parsed_whitespace(s, p2, sp2);
            if p3 < s.len() && s[p3] == ':' {
                lemma_parsed_body_closed(s, p1 + 1);
                lemma_value_printable(s, p3 + 1, next_column(sp3));
                let (v, p4, sp4) = parsed_value(s, p3 + 1, next_column(sp3));
                let members = match v {
                    Some(v) => acc.push(NodeModel { tag: t, value: v }),
                    None => acc,
                };
                let (p5, sp5) = parsed_comma(s, p4, sp4);
                if pos < p5 <= s.len() {
                    lemma_members_printable(s, p5, sp5, members);
                    if (forall|j: int| 0 <= j < acc.len() ==> printable_node(#[trigger] acc[j], true)) {
                        if v is Some {
                            assert(printable_node(NodeModel { tag: t, value: v->0 }, true));
                            assert forall|j: int| 0 <= j < members.len() implies printable_node(#[trigger] members[j], true) by {
                                if j < acc.len() {
                                    assert(members[j] == acc[j]);
                                }
                            }
                        }
                    }
                }
            } else {
                let (p5, sp5) = crate::grammar::recovered(s, p3, sp3, '}');
                if pos < p5 <= s.len() {
                    lemma_members_printable(s, p5, sp5, acc);
                }
            }
        } else {
            let (p5, sp5) = crate::grammar::recovered(s, p1, sp1, '}');
            if pos < p5 <= s.len() {
                lemma_members_printable(s, p5, sp5, acc);
            }
        }
    }
}

proof fn lemma_items_printable(s: Seq<char>, pos: int, sp: Span, acc: Seq<NodeModel>)
    requires
        no_dangling_escape(s),
        0 <= pos <= s.len(),
    ensures
        parsed_items(s, pos, sp, acc).0 matches Some(r) ==> ((forall|j: int|
            0 <= j < acc.len() ==> printable_node(#[trigger] acc[j], false)) ==> forall|j: int|
            0 <= j < r.len() ==> printable_node(#[trigger] r[j], false)),
    decreases s.len() - pos, 3int,
{
    if pos < s.len() && s[pos] != ']' {
        lemma_whitespace_bounds(s, pos, sp, false);
        let (p1, sp1) = parsed_whitespace(s, pos, sp);
        lemma_value_printable(s, p1, sp1);
        let (v, p2, sp2) = parsed_value(s, p1, sp1);
        let items = match v {
            Some(v) => acc.push(NodeModel { tag: None, value: v }),
            None => acc,
        };
        let (p3, sp3) = parsed_comma(s, p2, sp2);
        if p3 <= pos {
            let (p4, sp4) = crate::grammar::recovered(s, p3, sp3, ']');
            if pos < p4 <= s.len() {
                lemma_items_printable(s, p4, sp4, items);
            }
        }
        if pos < p3 <= s.len() {
            lemma_items_printable(s, p3, sp3, items);
            if (forall|j: int| 0 <= j < acc.len() ==> printable_node(#[trigger] acc[j], false)) {
                if v is Some {
                    assert(printable_node(NodeModel { tag: None, value: v->0 }, false));
                    assert forall|j: int| 0 <= j < items.len() implies printable_node(#[trigger] items[j], false) by {
                        if j < acc.len() {
                            assert(items[j] == acc[j]);
                        }
                    }
                }
            }
        }
    }
}

/// Every document that parses reads back from its compact text as a tree of
/// the same shape, unless a string in it runs to the end of the text and
/// ends in an unpaired backslash there; a text that does not end in a
/// backslash has no such string.
pub proof fn lemma_document_round_trip(s: Seq<char>)
    requires
        parsed_document(s) is Some,
        no_dangling_escape(s) || printable_value(parsed_document(s)->0.value),
    ensures
        ({
            let n = parsed_document(s)->0;
            parsed_document(node_text(n)) matches Some(m) && m.tag is None && same_value_shape(m.value, n.value)
        }),
{
    if no_dangling_escape(s) {
        lemma_value_printable(s, 0, Span { line: 1, column: 1, length: 1 });
    }
    lemma_display_round_trip(parsed_document(s)->0);
}

} // verus!
