use ts_json::diagnostic::Severity;
use ts_json::resolve::PathSegment;
use ts_json::span::Span;
use ts_json::validation::{diagnostics_for, failure_diagnostic, Failure};
use ts_json::json::Node;

fn failure(pointer: Vec<PathSegment>, headline: &str, message: Option<&str>, description: Option<&str>) -> Failure {
    Failure {
        pointer,
        headline: headline.to_string(),
        message: message.map(|m| m.to_string()),
        description: description.map(|d| d.to_string()),
    }
}

#[test]
fn missing_property_points_at_the_root_brace() {
    let source = r#"{"a": 1, "b": [1,2]}"#;
    let failures = vec![failure(vec![], "is missing required properties", Some("this should have a c property"), None)];
    let diagnostics = diagnostics_for(source, &failures, &None);
    assert_eq!("validating JSON", diagnostics.context);
    assert_eq!(1, diagnostics.problems.len());
    let problem = &diagnostics.problems[0];
    assert_eq!(Severity::Error, problem.severity);
    assert_eq!("is missing required properties", problem.headline);
    let context = problem.context.as_ref().expect("a context");
    assert_eq!(Span::default(), context.span);
    assert_eq!(vec![source.to_string()], context.context);
    assert_eq!(Some("this should have a c property".to_string()), context.label);
    assert_eq!(0, context.span_indent);
}

#[test]
fn failure_on_line_five_shows_lines_three_to_five() {
    let source = "{\n  \"a\": 1,\n  \"b\": 2,\n  \"c\": 3,\n  \"d\": \"x\"\n}";
    let failures = vec![failure(vec![PathSegment::Property("d".to_string())], "is the wrong type", None, None)];
    let diagnostics = diagnostics_for(source, &failures, &Some("doc.json".to_string()));
    let problem = &diagnostics.problems[0];
    assert_eq!(Some("doc.json".to_string()), problem.file_path);
    let context = problem.context.as_ref().expect("a context");
    assert_eq!(Span::default().line(5).column(8).length(3), context.span);
    assert_eq!(vec!["  \"b\": 2,", "  \"c\": 3,", "  \"d\": \"x\""], context.context);
    assert_eq!(7, context.span_indent);
}

#[test]
fn unresolvable_pointer_or_document_loses_only_the_context() {
    let source = r#"{"a": 1}"#;
    let f = failure(vec![PathSegment::Property("zz".to_string())], "is too large", None, Some("The value.\nSecond line!"));
    let document = Node::parse_document(source);
    let problem = failure_diagnostic(source, &document, &f, &None);
    assert!(problem.context.is_none());
    assert_eq!(vec!["the value", "second line"], problem.notes);

    let problem = failure_diagnostic("", &None, &f, &None);
    assert!(problem.context.is_none());
    assert_eq!("is too large", problem.headline);
    assert_eq!(2, problem.notes.len());
}

#[test]
fn no_failures_give_an_empty_collection() {
    let diagnostics = diagnostics_for("{}", &vec![], &None);
    assert!(diagnostics.is_empty());
    assert_eq!("", diagnostics.render());
}
