use std::io::{stderr, stdout, Write};

use ts_json::context::Context;
use ts_json::diagnostic::{Diagnostic, Diagnostics, Severity};
use ts_json::span::Span;

const BOLD: &str = "\x1b[1m";
const RED: &str = "\x1b[91m";
const YELLOW: &str = "\x1b[93m";
const CYAN: &str = "\x1b[96m";
const DEFAULT: &str = "\x1b[39m";
const RESET: &str = "\x1b[0m";

const SOURCE: &str = r#"use alloc::boxed::Box;
use core::{error::Error, fmt};

use ts_ansi::style::{BOLD, DEFAULT, RED, RESET};

/// An error report, displays the error stack of some error.
pub struct Report<'e> {
    /// The error for this report.
    pub source: Box<dyn Error + 'e>,
}
impl<'e> Report<'e> {
    /// Create a new error report.
    pub fn new<E: Error + 'e>(source: E) -> Self {
        Self {
            source: Box::new(source),
        }
    }
}
impl Error for Report<'static> {
    fn source(&self) -> Option<&(dyn Error + 'static)> {
        Some(self.source.as_ref())
    }
}
impl fmt::Debug for Report<'_> {
    fn fmt(&self, f: &mut fmt::Formatter<'_>) -> fmt::Result {
        write!(f, "{self}")
    }
}
impl fmt::Display for Report<'_> {
    fn fmt(&self, f: &mut fmt::Formatter<'_>) -> fmt::Result {
        let mut current_error = Some(self.source.as_ref());
        let mut count = 1;

        while let Some(error) = current_error {
            writeln!(f, " {BOLD}{RED}{count}{DEFAULT}.{RESET} {error}")?;

            count += 1;
            current_error = error.source();
        }

        Ok(())
    }
}"#;

const MINIFIED_SOURCE: &str = r#"async function Ui(n){return location.href=n,await mu()}function mu(){let n=t=>{setTimeout(()=>n(t),400)};return new Promise(n)}var br=class{element;contents;action;constructor(t,e){this.element=ht(`${t}/error`,HTMLElement),this.contents=ht(`${t}/error/content`,HTMLElement),this.action=e}clearError(){this.element.classList.add("collapse"),this.element.ariaHidden="true",this.contents.textContent=""}addError(t){if(this.contents.textContent===""){this.element.classList.remove("collapse"),this.element.ariaHidden="false",this.contents.textContent=`Could not ${this.action}: ${t}`;return}this.contents.textContent+=`, ${t}`}setSomethingWentWrong(){this.element.classList.remove("collapse"),this.element.ariaHidden="false",this.contents.textContent=`Something went wrong while trying to ${this.action}. Try again later.`}},Nr=class{input;error;constructor(t,e){this.input=ht(`${t}${e}/input`,HTMLInputElement),this.error=ht(`${t}${e}/error`,HTMLElement),this.input.addEventListener("input",()=>{this.input.setCustomValidity("")})}getValue(){return this.input.type==="checkbox"?this.input.checked?"checked":"unchecked":this.input.value}setLock(t){this.input.disabled=t}clearError(){this.input.setCustomValidity(""),this.error.classList.add("hidden"),this.error.ariaHidden="true",this.error.textContent="!"}addError(t){if(this.error.textContent==="!"){this.input.setCustomValidity(t),this.error.classList.remove("hidden"),this.error.ariaHidden="false",this.error.textContent=`Invalid value: ${t}`;return}this.error.textContent+=`, ${t}`,this.input.setCustomValidity(this.error.textContent??"Invalid value")}},ge=class{form;formError;submitButton;inputs;constructor(t,e,r){this.form=ht(t,HTMLFormElement),this.formError=new br(t,r),this.submitButton=ht(`${t}/submit`,HTMLButtonElement);let o=new Map;for(let i of e)o.set(i,new Nr(t,i));this.inputs=o}clearErrors(){this.formError.clearError();for(let t of this.inputs.values())t.clearError()}setLock(t){this.submitButton.disabled=t;for(let e of this.inputs.values())e.setLock(t)}setInputErrors(t){if(!t||t.length===0){this.formError.addError("an unknown field is invalid");return}for(let e of t){let r=this.inputs.get(e.pointer)??null;r?r.addError(e.detail):this.formError.addError(`field ${e.pointer} ${e.detail}`)}}getValues(){let t=new Map;for(let[e,r]of this.inputs)t.set(e,r.getValue());return t}};"#;

#[test]
fn show_output() {
    let _stdout = stdout().lock();
    let mut stderr = stderr().lock();

    let warning = Diagnostic::warning("struct `Report` is never used")
        .file_path("crates/ts-error/src/report.rs")
        .context(Context::new(
            SOURCE,
            Span::default().line(7).column(12).length(6),
        ))
        .add_note("`#[warn(dead_code)]` on by default");

    let error = Diagnostic::error("struct `Report` is never used")
        .context(
            Context::new(SOURCE, Span::default().line(7).column(12).length(6))
                .label("this is unused"),
        )
        .add_note("`#[warn(dead_code)]` on by default");

    let minified_error = Diagnostic::error("some headline here")
        .context(
            Context::new(
                MINIFIED_SOURCE,
                Span::default().line(1).column(200).length(50),
            )
            .label("some label here"),
        )
        .add_note("some note here")
        .add_note("this code is trimmed");

    stderr
        .write_all(error.render().as_bytes())
        .expect("writing to stderr should not fail");
    stderr
        .write_all(b"\n")
        .expect("writing to stderr should not fail");
    stderr
        .write_all(minified_error.render().as_bytes())
        .expect("writing to stderr should not fail");
    stderr
        .write_all(b"\n")
        .expect("writing to stderr should not fail");
    stderr
        .write_all(warning.render().as_bytes())
        .expect("writing to stderr should not fail");

    stderr
        .write_all(b"\n-----\n")
        .expect("writing to stderr should not fail");

    let mut diagnostics = Diagnostics::new("test");
    diagnostics.push(warning);
    diagnostics.push(minified_error);
    diagnostics.push(error);
    stderr
        .write_all(diagnostics.render().as_bytes())
        .expect("writing to stderr should not fail");

    stderr.flush().expect("flusing stderr should not fail");
}

#[test]
fn renders_headline_and_spacer_without_context() {
    let text = Diagnostic::error("oops").render();
    let expected = format!("{BOLD}{RED}error{DEFAULT}: oops{RESET}\n {CYAN}{BOLD} | {RESET}\n");
    assert_eq!(expected, text);
}

#[test]
fn renders_context_rows_carets_label_and_notes() {
    let context = Context::new("ab\ncd", Span::default().line(2).column(2)).label("here");
    let text = Diagnostic::warning("is odd").context(context).add_note("first").add_note("second").render();
    let expected = format!(
        "{BOLD}{YELLOW}warning{DEFAULT}: is odd{RESET}\n\
         \u{20}{CYAN}{BOLD}-->{RESET} line 2, column 2\n\
         \u{20}{CYAN}{BOLD} | {RESET}\n\
         {CYAN}{BOLD}1 | {RESET}ab\n\
         {CYAN}{BOLD}2 | {RESET}cd\n\
         \u{20}{CYAN}{BOLD} | {RESET} {YELLOW}{BOLD}^ here{RESET}\n\
         \u{20}{CYAN}{BOLD} | {RESET}\n\
         \u{20}{CYAN}{BOLD} = {DEFAULT}note{RESET}: first\n\
         \u{20}{CYAN}{BOLD} = {DEFAULT}note{RESET}: second\n"
    );
    assert_eq!(expected, text);
}

#[test]
fn renders_file_path_with_line_and_column() {
    let context = Context::new("x", Span::default().line(1).column(1));
    let text = Diagnostic::error("bad").file_path("a.json").context(context).render();
    assert!(text.contains(&format!(" {CYAN}{BOLD}-->{RESET} a.json:1:1\n")));
    let text = Diagnostic::error("bad").file_path("a.json").render();
    assert!(text.contains(&format!(" {CYAN}{BOLD}-->{RESET} a.json\n")));
}

#[test]
fn pads_line_numbers_to_the_widest() {
    let source = "1\n2\n3\n4\n5\n6\n7\n8\n9\nten";
    let context = Context::new(source, Span::default().line(10).length(3));
    let text = Diagnostic::error("wide").context(context).render();
    assert!(text.contains(&format!("{CYAN}{BOLD} 8 | {RESET}8\n")));
    assert!(text.contains(&format!("{CYAN}{BOLD}10 | {RESET}ten\n")));
    assert!(text.contains(&format!("  {CYAN}{BOLD} | {RESET}{RED}{BOLD}^^^{RESET}\n")));
}

#[test]
fn empty_collection_renders_nothing() {
    let diagnostics = Diagnostics::new("validating JSON");
    assert!(diagnostics.is_empty());
    assert_eq!("", diagnostics.render());
    assert_eq!(0, diagnostics.errors().len());
    assert_eq!(0, diagnostics.warnings().len());
}

#[test]
fn errors_come_before_warnings_with_summaries() {
    let mut diagnostics = Diagnostics::new("test");
    diagnostics.push(Diagnostic::warning("w1"));
    diagnostics.push(Diagnostic::error("e1"));
    diagnostics.push(Diagnostic::new(Severity::Error, "e2"));
    assert!(!diagnostics.is_empty());
    assert_eq!(2, diagnostics.errors().len());
    assert_eq!(1, diagnostics.warnings().len());
    assert_eq!("e1", diagnostics.errors()[0].headline);
    assert_eq!("e2", diagnostics.errors()[1].headline);

    let e1 = Diagnostic::error("e1").render();
    let e2 = Diagnostic::error("e2").render();
    let w1 = Diagnostic::warning("w1").render();
    let expected = format!(
        "{e1}\n{e2}\n{w1}\n\
         {BOLD}{RED}error{DEFAULT}:{RESET} test generated 2 errors\n\
         {BOLD}{YELLOW}warning{DEFAULT}:{RESET} test generated 1 warnings\n"
    );
    assert_eq!(expected, diagnostics.render());
}

#[test]
fn severity_words_and_colours() {
    assert_eq!("error", Severity::Error.word());
    assert_eq!("warning", Severity::Warning.word());
    assert_eq!(RED, Severity::Error.colour());
    assert_eq!(YELLOW, Severity::Warning.colour());
}
