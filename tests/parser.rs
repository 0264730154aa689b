use ts_json::json::{Array, Literal, Node, Object, StringValue, Value};
use ts_json::parse::Whitespace;
use ts_json::resolve::{Index, PathSegment};
use ts_json::source::CharStream;
use ts_json::span::Span;

const SAMPLE: &str = r#"{
  "array": [
    {
      "text": "다람쥐 헌\n 쳇바퀴에 타고파",
      "flag": false,
      "number": -1.04e2
    },
    {
      "text": "\"ابجد هوز حطي كلمن سعفص قرشت ثخذ ضظغ\"",
      "flag": true,
      "number": null
    }
  ]
}
"#;

fn object(span: Span, properties: Vec<Node>) -> Value {
    Value::Object(Object { span, properties })
}

fn array(span: Span, items: Vec<Value>) -> Value {
    Value::Array(Array {
        span,
        items: items.into_iter().map(|value| Node { tag: None, value }).collect(),
    })
}

fn string<S: ToString>(span: Span, value: S) -> Value {
    Value::String(StringValue { span, value: value.to_string() })
}

fn literal<S: ToString>(span: Span, value: S) -> Value {
    Value::Literal(Literal { span, value: value.to_string() })
}

fn node<S: ToString>(tag_span: Span, tag: S, value: Value) -> Node {
    Node {
        tag: Some(StringValue { span: tag_span, value: tag.to_string() }),
        value,
    }
}

#[test]
fn handles_sample() {
    let expected = object(
        Span::default(),
        vec![node(
            Span::default().line(2).column(3).length(7),
            "array",
            array(
                Span::default().line(2).column(12),
                vec![
                    object(
                        Span::default().line(3).column(5),
                        vec![
                            node(
                                Span::default().line(4).column(7).length(6),
                                "text",
                                string(
                                    Span::default().column(15).line(4).length(18),
                                    "다람쥐 헌\\n 쳇바퀴에 타고파",
                                ),
                            ),
                            node(
                                Span::default().line(5).column(7).length(6),
                                "flag",
                                literal(Span::default().column(15).line(5).length(5), "false"),
                            ),
                            node(
                                Span::default().line(6).column(7).length(8),
                                "number",
                                literal(Span::default().line(6).column(17).length(7), "-1.04e2"),
                            ),
                        ],
                    ),
                    object(
                        Span::default().line(8).column(5),
                        vec![
                            node(
                                Span::default().line(9).column(7).length(6),
                                "text",
                                string(
                                    Span::default().line(9).column(15).length(41),
                                    "\\\"ابجد هوز حطي كلمن سعفص قرشت ثخذ ضظغ\\\"",
                                ),
                            ),
                            node(
                                Span::default().line(10).column(7).length(6),
                                "flag",
                                literal(Span::default().line(10).column(15).length(4), "true"),
                            ),
                            node(
                                Span::default().line(11).column(7).length(8),
                                "number",
                                literal(Span::default().line(11).column(17).length(4), "null"),
                            ),
                        ],
                    ),
                ],
            ),
        )],
    );

    let document = Node::parse_document(SAMPLE).expect("document should parse");
    assert_eq!(expected, document.value);
}

#[test]
fn string_width_counts_grapheme_clusters() {
    // "e" followed by a combining acute accent is one cluster of two chars.
    let mut span = Span::default();
    let mut stream = CharStream::new("\"e\u{301}x\" rest");
    let value = StringValue::parse(&mut span, &mut stream).expect("a string");
    assert_eq!("e\u{301}x", value.value);
    assert_eq!(4, value.span.length);
    assert_eq!(5, span.column);
    assert_eq!(5, stream.index);

    let mut span = Span::default();
    let mut stream = CharStream::new("\"다람쥐\"");
    let value = StringValue::parse(&mut span, &mut stream).expect("a string");
    assert_eq!(5, value.span.length);
}

#[test]
fn string_keeps_escapes_verbatim() {
    let mut span = Span::default();
    let mut stream = CharStream::new(r#""a\"b\\" tail"#);
    let value = StringValue::parse(&mut span, &mut stream).expect("a string");
    assert_eq!(r#"a\"b\\"#, value.value);
    assert_eq!(8, stream.index);
}

#[test]
fn unterminated_string_runs_to_the_end() {
    let mut span = Span::default();
    let mut stream = CharStream::new("\"abc");
    let value = StringValue::parse(&mut span, &mut stream).expect("a string");
    assert_eq!("abc", value.value);
    assert_eq!(5, value.span.length);
    assert_eq!(4, stream.index);
}

#[test]
fn literal_needs_one_character() {
    let mut span = Span::default();
    let mut stream = CharStream::new("}");
    assert_eq!(None, Literal::parse(&mut span, &mut stream));
    assert_eq!(0, stream.index);
    assert_eq!(Span::default(), span);

    let mut stream = CharStream::new("-12.5e+3,");
    let value = Literal::parse(&mut span, &mut stream).expect("a literal");
    assert_eq!("-12.5e+3", value.value);
    assert_eq!(8, value.span.length);
    assert_eq!(9, span.column);
}

#[test]
fn whitespace_counts_crlf_as_one_line_break() {
    let mut span = Span::default();
    let mut stream = CharStream::new("\r\n  \n\t x");
    Whitespace::parse(&mut span, &mut stream);
    assert_eq!(3, span.line);
    assert_eq!(3, span.column);
    assert_eq!(7, stream.index);

    let mut span = Span::default();
    let mut stream = CharStream::new("\n\n\rx");
    Whitespace::parse(&mut span, &mut stream);
    assert_eq!(4, span.line);
    assert_eq!(1, span.column);

    let mut span = Span::default();
    let mut stream = CharStream::new("\n\nx");
    Whitespace::parse(&mut span, &mut stream);
    assert_eq!(Span::default().line(3).column(1), span);
    assert_eq!(Some('x'), stream.peek());

    let mut span = Span::default().line(4).column(15);
    let mut stream = CharStream::new("\r\r\n\n x");
    Whitespace::parse(&mut span, &mut stream);
    assert_eq!(Span::default().line(7).column(2), span);
}

#[test]
fn malformed_member_does_not_drop_its_siblings() {
    let document = Node::parse_document(r#"{"a": 1, "b": , "c": [2]}"#).expect("document should parse");
    let Value::Object(object) = &document.value else { panic!("an object") };
    assert_eq!(2, object.properties.len());
    assert_eq!("a", object.properties[0].tag.as_ref().unwrap().value);
    assert_eq!("c", object.properties[1].tag.as_ref().unwrap().value);
}

fn member_tags(document: &Node) -> Vec<String> {
    let Value::Object(object) = &document.value else { panic!("an object") };
    object.properties.iter().map(|p| p.tag.as_ref().unwrap().value.clone()).collect()
}

#[test]
fn malformed_members_are_skipped() {
    let document = Node::parse_document(r#"{"a": 1, "b": x, "c": 2}"#).expect("document should parse");
    assert_eq!(vec!["a", "c"], member_tags(&document));
    let document = Node::parse_document(r#"{"a":1,"b" 2}"#).expect("document should parse");
    assert_eq!(vec!["a"], member_tags(&document));
    let document = Node::parse_document(r#"{"a": 1, b: 2, "d": 4}"#).expect("document should parse");
    assert_eq!(vec!["a", "d"], member_tags(&document));
    let document = Node::parse_document(r#"{"a" [1, {"q": "}"}], "c": 3}"#).expect("document should parse");
    assert_eq!(vec!["c"], member_tags(&document));
    let document = Node::parse_document(r#"{"a": 1, "b: 2, "c": 3}"#).expect("document should parse");
    assert_eq!(vec!["a"], member_tags(&document));
    let document = Node::parse_document(r#"{"a": 1"#).expect("document should parse");
    assert_eq!(vec!["a"], member_tags(&document));
}

fn item_texts(document: &Node) -> Vec<String> {
    let Value::Array(array) = &document.value else { panic!("an array") };
    array
        .items
        .iter()
        .map(|item| match &item.value {
            Value::Literal(l) => l.value.clone(),
            Value::String(s) => s.value.clone(),
            Value::Object(_) => "{}".to_string(),
            Value::Array(_) => "[]".to_string(),
        })
        .collect()
}

#[test]
fn array_skips_unreadable_items() {
    let document = Node::parse_document("[1, x, 2]").expect("document should parse");
    assert_eq!(vec!["1", "2"], item_texts(&document));
    let document = Node::parse_document("[1, :]").expect("document should parse");
    assert_eq!(vec!["1"], item_texts(&document));
    let document = Node::parse_document("[1, :{\"a\": [1, 2]}, \"b\"]").expect("document should parse");
    assert_eq!(vec!["1", "b"], item_texts(&document));
    let document = Node::parse_document("[}").expect("document should parse");
    assert!(item_texts(&document).is_empty());
    let document = Node::parse_document("[1, 2").expect("document should parse");
    assert_eq!(vec!["1", "2"], item_texts(&document));
    let document = Node::parse_document("[1, , 2]").expect("document should parse");
    assert_eq!(vec!["1", "2"], item_texts(&document));
}

#[test]
fn empty_document_does_not_parse() {
    assert_eq!(None, Node::parse_document(""));
    assert_eq!(None, Node::parse_document("   \n "));
    assert_eq!(None, Node::parse_document(":"));
}

#[test]
fn evaluates_paths() {
    let document = Node::parse_document("{\"a\": 1, \"b\": [true, {\"c\": \"x\"}]}").expect("document should parse");
    assert_eq!(Some(&document), document.evaluate(&vec![]));
    let found = document
        .evaluate(&vec![PathSegment::Property("b".to_string()), PathSegment::Index(1), PathSegment::Property("c".to_string())])
        .expect("resolves");
    assert_eq!(Value::String(StringValue { span: Span::default().column(28).length(3), value: "x".to_string() }), found.value);
    assert_eq!(None, document.evaluate(&vec![PathSegment::Index(0)]));
    assert_eq!(None, document.evaluate(&vec![PathSegment::Property("b".to_string()), PathSegment::Property("0".to_string())]));
    assert_eq!(None, document.evaluate(&vec![PathSegment::Property("b".to_string()), PathSegment::Index(2)]));
    assert_eq!(None, document.evaluate(&vec![PathSegment::Property("z".to_string())]));
    assert!(document.get(Index::Tag("a")).is_some());
    assert!(document.get(Index::Index(0)).is_none());
}

#[test]
fn highlight_prefers_the_tag_of_containers() {
    let document = Node::parse_document("{\"a\": {\"b\": 1}, \"c\": 2}").expect("document should parse");
    let a = document.evaluate(&vec![PathSegment::Property("a".to_string())]).unwrap();
    assert_eq!(Span::default().column(2).length(3), a.highlight());
    let c = document.evaluate(&vec![PathSegment::Property("c".to_string())]).unwrap();
    assert_eq!(Span::default().column(22).length(1), c.highlight());
    assert_eq!(Span::default(), document.highlight());
    assert_eq!(Span::default(), document.value.span());
}

#[test]
fn advance_follows_the_cursor_rule() {
    let span = Span::default();
    assert_eq!(Span::default().line(2).column(1), span.advance('\n'));
    assert_eq!(span, span.advance('\u{7}'));
    assert_eq!(Span::default().column(2), span.advance('ä'));
}

#[test]
fn json_text_reads_back_the_same() {
    let document = Node::parse_document(SAMPLE).expect("document should parse");
    let text = document.to_json();
    let again = Node::parse_document(&text).expect("text should parse");
    assert_eq!(text, again.to_json());
    let document = Node::parse_document("[1, \"a\\\"b\", {\"k\": []}]").expect("document should parse");
    assert_eq!("[1,\"a\\\"b\",{\"k\": []}]", document.to_json());
}
