//! Behaviour of the template engine against scripted resolvers.

use custom_uploader::resolver::Resolver;
use custom_uploader::syntax::process;
use custom_uploader::uploader::Error;
use std::cell::RefCell;

/// A resolver that records every invocation, answers from a small table
/// (`<name>` in angle brackets when the table has no entry), and fails on
/// one configured name.
struct RecordingResolver {
    log: RefCell<Vec<(String, Vec<String>)>>,
    answers: Vec<(String, String)>,
    fail_on: Option<String>,
}

impl RecordingResolver {
    fn new() -> Self {
        RecordingResolver { log: RefCell::new(Vec::new()), answers: Vec::new(), fail_on: None }
    }

    fn with_answer(mut self, name: &str, answer: &str) -> Self {
        self.answers.push((name.to_string(), answer.to_string()));
        self
    }

    fn failing_on(mut self, name: &str) -> Self {
        self.fail_on = Some(name.to_string());
        self
    }

    fn calls(&self) -> Vec<(String, Vec<String>)> {
        self.log.borrow().clone()
    }
}

impl Resolver for RecordingResolver {
    type Ctx = ();
    type E = Error;

    fn resolve(&self, name: &String, args: &Vec<String>, _ctx: &()) -> Result<String, Error> {
        self.log.borrow_mut().push((name.clone(), args.clone()));
        if self.fail_on.as_ref() == Some(name) {
            return Err(Error::Syntax(format!("no such function {}", name)));
        }
        for (n, a) in &self.answers {
            if n == name {
                return Ok(a.clone());
            }
        }
        Ok(format!("<{}>", name))
    }
}

fn expect_syntax_message(e: Error) -> String {
    match e {
        Error::Syntax(m) => m,
    }
}

#[test]
fn plain_text_is_returned_unchanged() {
    let r = RecordingResolver::new();
    let out = process("hello world", &r, &()).unwrap();
    assert_eq!(out, "hello world");
    assert!(r.calls().is_empty());
}

#[test]
fn empty_input_gives_empty_output() {
    let r = RecordingResolver::new();
    assert_eq!(process("", &r, &()).unwrap(), "");
    assert!(r.calls().is_empty());
}

#[test]
fn escaped_braces_never_trigger_a_call() {
    let r = RecordingResolver::new();
    let out = process("\\{x\\}", &r, &()).unwrap();
    assert_eq!(out, "{x}");
    assert!(r.calls().is_empty());
}

#[test]
fn escape_consumes_exactly_one_character() {
    let r = RecordingResolver::new();
    // an escaped backslash is one literal backslash; the escaped colon and
    // pipe are plain text anyway
    assert_eq!(process("a\\\\b\\:c\\|d", &r, &()).unwrap(), "a\\b:c|d");
    assert!(r.calls().is_empty());
}

#[test]
fn trailing_escape_is_emitted_literally() {
    let r = RecordingResolver::new();
    assert_eq!(process("ab\\", &r, &()).unwrap(), "ab\\");
    assert!(r.calls().is_empty());
}

#[test]
fn zero_argument_call_is_made_exactly_once() {
    let r = RecordingResolver::new().with_answer("foo", "FOO");
    let out = process("{foo}", &r, &()).unwrap();
    assert_eq!(out, "FOO");
    assert_eq!(r.calls(), vec![("foo".to_string(), Vec::<String>::new())]);
}

#[test]
fn later_colons_stay_inside_the_first_argument() {
    let r = RecordingResolver::new().with_answer("base64", "B");
    let out = process("{base64:user:pw}", &r, &()).unwrap();
    assert_eq!(out, "B");
    assert_eq!(r.calls(), vec![("base64".to_string(), vec!["user:pw".to_string()])]);
}

#[test]
fn pipe_separates_arguments() {
    let r = RecordingResolver::new().with_answer("test2", "T");
    let out = process("{test2:more|args}", &r, &()).unwrap();
    assert_eq!(out, "T");
    assert_eq!(
        r.calls(),
        vec![("test2".to_string(), vec!["more".to_string(), "args".to_string()])]
    );
}

#[test]
fn nested_call_resolves_before_enclosing_call() {
    let r = RecordingResolver::new().with_answer("inner", "IN").with_answer("outer", "OUT");
    let out = process("{outer:{inner}}", &r, &()).unwrap();
    assert_eq!(out, "OUT");
    assert_eq!(
        r.calls(),
        vec![
            ("inner".to_string(), Vec::<String>::new()),
            ("outer".to_string(), vec!["IN".to_string()]),
        ]
    );
}

#[test]
fn nested_call_inside_the_name_position() {
    let r = RecordingResolver::new().with_answer("abc", "N");
    let out = process("{a{b}c}", &r, &()).unwrap();
    // {b} resolves to "<b>"; the name becomes "a<b>c" -- here answered by
    // the default rule
    assert_eq!(out, "<a<b>c>");
    assert_eq!(
        r.calls(),
        vec![
            ("b".to_string(), Vec::<String>::new()),
            ("a<b>c".to_string(), Vec::<String>::new()),
        ]
    );
}

#[test]
fn scanning_continues_after_a_resolved_call() {
    let r = RecordingResolver::new().with_answer("a", "A").with_answer("test", "T");
    let out = process("{a}hello {test:123} world", &r, &()).unwrap();
    assert_eq!(out, "Ahello T world");
    assert_eq!(
        r.calls(),
        vec![
            ("a".to_string(), Vec::<String>::new()),
            ("test".to_string(), vec!["123".to_string()]),
        ]
    );
}

#[test]
fn resolver_error_propagates_unchanged_and_stops_the_scan() {
    let r = RecordingResolver::new().with_answer("a", "A").failing_on("fail");
    let e = process("{a}{fail}{b}", &r, &()).unwrap_err();
    assert_eq!(expect_syntax_message(e), "no such function fail");
    // the call after the failing one is never made
    assert_eq!(
        r.calls(),
        vec![
            ("a".to_string(), Vec::<String>::new()),
            ("fail".to_string(), Vec::<String>::new()),
        ]
    );
}

#[test]
fn nested_resolver_error_stops_the_enclosing_call() {
    let r = RecordingResolver::new().failing_on("fail");
    let e = process("{outer:{fail}}", &r, &()).unwrap_err();
    assert_eq!(expect_syntax_message(e), "no such function fail");
    // the enclosing call is never made
    assert_eq!(r.calls(), vec![("fail".to_string(), Vec::<String>::new())]);
}

#[test]
fn unterminated_scope_still_resolves() {
    let r = RecordingResolver::new().with_answer("unterminated", "U");
    let out = process("{unterminated", &r, &()).unwrap();
    assert_eq!(out, "U");
    assert_eq!(r.calls(), vec![("unterminated".to_string(), Vec::<String>::new())]);
}

#[test]
fn unterminated_nested_scopes_resolve_inside_out() {
    let r = RecordingResolver::new().with_answer("b", "B");
    let out = process("{a:{b", &r, &()).unwrap();
    assert_eq!(out, "<a>");
    assert_eq!(
        r.calls(),
        vec![
            ("b".to_string(), Vec::<String>::new()),
            ("a".to_string(), vec!["B".to_string()]),
        ]
    );
}

#[test]
fn empty_argument_after_colon() {
    let r = RecordingResolver::new();
    let out = process("{f:}", &r, &()).unwrap();
    assert_eq!(out, "<f>");
    assert_eq!(r.calls(), vec![("f".to_string(), vec!["".to_string()])]);
}

#[test]
fn stray_close_brace_ends_the_scan() {
    let r = RecordingResolver::new();
    let out = process("ab}cd", &r, &()).unwrap();
    assert_eq!(out, "ab");
    assert!(r.calls().is_empty());
}

#[test]
fn colon_outside_a_scope_is_literal() {
    let r = RecordingResolver::new();
    assert_eq!(process("a:b", &r, &()).unwrap(), "a:b");
    assert!(r.calls().is_empty());
}

#[test]
fn escape_inside_a_name_is_unescaped() {
    let r = RecordingResolver::new().with_answer("random", "R");
    let out = process("{rand\\om}", &r, &()).unwrap();
    assert_eq!(out, "R");
    assert_eq!(r.calls(), vec![("random".to_string(), Vec::<String>::new())]);
}

#[test]
fn escaped_close_brace_inside_an_argument() {
    let r = RecordingResolver::new().with_answer("test2", "T");
    let out = process("{test2:more|ar\\}gs}", &r, &()).unwrap();
    assert_eq!(out, "T");
    assert_eq!(
        r.calls(),
        vec![("test2".to_string(), vec!["more".to_string(), "ar}gs".to_string()])]
    );
}

#[test]
fn resolved_text_is_not_rescanned() {
    // the resolver answers with text full of reserved characters; it must
    // come through verbatim and trigger nothing
    let r = RecordingResolver::new().with_answer("f", "{x:y|z}");
    let out = process("-{f}-", &r, &()).unwrap();
    assert_eq!(out, "-{x:y|z}-");
    assert_eq!(r.calls(), vec![("f".to_string(), Vec::<String>::new())]);
}
