use ts_json::context::Context;
use ts_json::span::Span;

const SOURCE: &str = r#"use alloc::boxed::Box;
use core::{error::Error, fmt};

use ts_ansi::style::{BOLD, DEFAULT, RED, RESET};

/// An error report, displays the error stack of some error.
pub struct Report<'e> {
    /// The error for this report.
    pub source: Box<dyn Error + 'e>,
}
impl<'e> Report<'e> {
    /// Create a new error report.
    pub fn new<E: Error + 'e>(source: E) -> Self {
        Self {
            source: Box::new(source),
        }
    }
}
impl Error for Report<'static> {
    fn source(&self) -> Option<&(dyn Error + 'static)> {
        Some(self.source.as_ref())
    }
}
impl fmt::Debug for Report<'_> {
    fn fmt(&self, f: &mut fmt::Formatter<'_>) -> fmt::Result {
        write!(f, "{self}")
    }
}
impl fmt::Display for Report<'_> {
    fn fmt(&self, f: &mut fmt::Formatter<'_>) -> fmt::Result {
        let mut current_error = Some(self.source.as_ref());
        let mut count = 1;

        while let Some(error) = current_error {
            writeln!(f, " {BOLD}{RED}{count}{DEFAULT}.{RESET} {error}")?;

            count += 1;
            current_error = error.source();
        }

        Ok(())
    }
}"#;

const MINIFIED_SOURCE: &str = r#"async function Ui(n){return location.href=n,await mu()}function mu(){let n=t=>{setTimeout(()=>n(t),400)};return new Promise(n)}var br=class{element;contents;action;constructor(t,e){this.element=ht(`${t}/error`,HTMLElement),this.contents=ht(`${t}/error/content`,HTMLElement),this.action=e}clearError(){this.element.classList.add("collapse"),this.element.ariaHidden="true",this.contents.textContent=""}addError(t){if(this.contents.textContent===""){this.element.classList.remove("collapse"),this.element.ariaHidden="false",this.contents.textContent=`Could not ${this.action}: ${t}`;return}this.contents.textContent+=`, ${t}`}setSomethingWentWrong(){this.element.classList.remove("collapse"),this.element.ariaHidden="false",this.contents.textContent=`Something went wrong while trying to ${this.action}. Try again later.`}},Nr=class{input;error;constructor(t,e){this.input=ht(`${t}${e}/input`,HTMLInputElement),this.error=ht(`${t}${e}/error`,HTMLElement),this.input.addEventListener("input",()=>{this.input.setCustomValidity("")})}getValue(){return this.input.type==="checkbox"?this.input.checked?"checked":"unchecked":this.input.value}setLock(t){this.input.disabled=t}clearError(){this.input.setCustomValidity(""),this.error.classList.add("hidden"),this.error.ariaHidden="true",this.error.textContent="!"}addError(t){if(this.error.textContent==="!"){this.input.setCustomValidity(t),this.error.classList.remove("hidden"),this.error.ariaHidden="false",this.error.textContent=`Invalid value: ${t}`;return}this.error.textContent+=`, ${t}`,this.input.setCustomValidity(this.error.textContent??"Invalid value")}},ge=class{form;formError;submitButton;inputs;constructor(t,e,r){this.form=ht(t,HTMLFormElement),this.formError=new br(t,r),this.submitButton=ht(`${t}/submit`,HTMLButtonElement);let o=new Map;for(let i of e)o.set(i,new Nr(t,i));this.inputs=o}clearErrors(){this.formError.clearError();for(let t of this.inputs.values())t.clearError()}setLock(t){this.submitButton.disabled=t;for(let e of this.inputs.values())e.setLock(t)}setInputErrors(t){if(!t||t.length===0){this.formError.addError("an unknown field is invalid");return}for(let e of t){let r=this.inputs.get(e.pointer)??null;r?r.addError(e.detail):this.formError.addError(`field ${e.pointer} ${e.detail}`)}}getValues(){let t=new Map;for(let[e,r]of this.inputs)t.set(e,r.getValue());return t}};"#;

#[test]
fn handles_context() {
    let span = Span::default().line(7).column(12).length(6);
    let context = Context::new(SOURCE, span);
    assert_eq!(
        vec![
            r#""#,
            r#"/// An error report, displays the error stack of some error."#,
            r#"pub struct Report<'e> {"#
        ],
        context.context
    );

    let span = Span::default().line(36);
    let context = Context::new(SOURCE, span);
    assert_eq!(
        vec![
            r#"        while let Some(error) = current_error {"#,
            r#"            writeln!(f, " {BOLD}{RED}{count}{DEFAULT}.{RESET} {error}")?;"#,
            r#""#
        ],
        context.context
    );

    let span = Span::default().line(999);
    let context = Context::new(SOURCE, span);
    assert_eq!(Vec::<String>::new(), context.context);

    let span = Span::default().line(35).column(999).length(999);
    let context = Context::new(SOURCE, span);
    assert_eq!(vec![r#""#, r#""#, r#""#], context.context);

    let span = Span::default().line(1).column(200).length(50);
    let context = Context::new(MINIFIED_SOURCE, span);
    assert_eq!(
        vec![
            r#"ontents;action;constructor(t,e){this.element=ht(`${t}/error`,HTMLElement),this.contents=ht(`${t}/err"#
        ],
        context.context
    );
}

#[test]
fn context_past_the_last_line_is_empty() {
    let source = "one\ntwo\nthree";
    let context = Context::new(source, Span::default().line(6));
    assert!(context.context.is_empty());
    let context = Context::new(source, Span::default().line(4));
    assert!(context.context.is_empty());
    let context = Context::new("a\nb", Span::default().line(3));
    assert!(context.context.is_empty());
    let context = Context::new(source, Span::default().line(3));
    assert_eq!(vec!["one", "two", "three"], context.context);
}

#[test]
fn context_of_the_fifth_line_holds_lines_three_to_five() {
    let source = "line one\nline two\nline three\nline four\n    value";
    let context = Context::new(source, Span::default().line(5).column(5).length(5));
    assert_eq!(vec!["line three", "line four", "    value"], context.context);
    assert_eq!(4, context.span_indent);
    assert_eq!(None, context.label);
}

#[test]
fn context_window_is_at_most_a_hundred_wide() {
    let long: String = "x".repeat(250);
    let source = format!("{long}\n{long}");
    let context = Context::new(&source, Span::default().line(2).column(180).length(10));
    assert_eq!(2, context.context.len());
    for line in &context.context {
        assert_eq!(100, line.chars().count());
    }
    assert_eq!(90, context.span_indent);

    let context = Context::new(&source, Span::default().line(2).column(1).length(500));
    assert_eq!(0, context.span_indent);
    assert_eq!(100, context.context[1].chars().count());
}

#[test]
fn context_drops_carriage_return_before_newline() {
    let context = Context::new("ab\r\ncd\r", Span::default().line(2));
    assert_eq!(vec!["ab", "cd\r"], context.context);
}

#[test]
fn context_label_is_kept() {
    let context = Context::new("abc", Span::default().column(2)).label("here");
    assert_eq!(Some("here".to_string()), context.label);
    assert_eq!(vec!["abc"], context.context);
    assert_eq!(1, context.span_indent);
}
