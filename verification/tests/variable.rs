use regex::Regex;
use rew::parse::{Error, ErrorKind};
use rew::reader::{Char, Reader};
use rew::variable::{EvalContext, Variable};

fn assert_ok(string: &str, variable: Variable) {
    assert_eq!(Variable::parse(&mut Reader::new(string)), Ok(variable));
}

fn assert_err(string: &str, error: Error) {
    assert_eq!(Variable::parse(&mut Reader::new(string)), Err(error));
}

fn make_context() -> EvalContext {
    let captures = Regex::new("(.*)")
        .unwrap()
        .captures("abc")
        .unwrap()
        .iter()
        .map(|m| m.map_or(String::new(), |v| v.as_str().to_string()))
        .collect();
    EvalContext {
        path: "root/parent/file.ext".to_string(),
        local_counter: 1,
        global_counter: 2,
        regex_captures: captures,
    }
}

#[test]
fn parse_filename() {
    assert_ok("f", Variable::Filename);
}

#[test]
fn parse_basename() {
    assert_ok("b", Variable::Basename);
}

#[test]
fn variable_parse_extension() {
    assert_ok("e", Variable::Extension);
}

#[test]
fn variable_parse_extension_with_dot() {
    assert_ok("E", Variable::ExtensionWithDot);
}

#[test]
fn parse_full_dirname() {
    assert_ok("d", Variable::FullDirname);
}

#[test]
fn parse_parent_dirname() {
    assert_ok("D", Variable::ParentDirname);
}

#[test]
fn parse_full_path() {
    assert_ok("p", Variable::FullPath);
}

#[test]
fn variable_parse_local_counter() {
    assert_ok("c", Variable::LocalCounter);
}

#[test]
fn variable_parse_global_counter() {
    assert_ok("C", Variable::GlobalCounter);
}

#[test]
fn parse_regex_capture() {
    assert_ok("1", Variable::RegexCapture(1));
    assert_ok("2", Variable::RegexCapture(2));
    assert_ok("3", Variable::RegexCapture(3));
    assert_ok("4", Variable::RegexCapture(4));
    assert_ok("5", Variable::RegexCapture(5));
    assert_ok("6", Variable::RegexCapture(6));
    assert_ok("7", Variable::RegexCapture(7));
    assert_ok("8", Variable::RegexCapture(8));
    assert_ok("9", Variable::RegexCapture(9));
    assert_ok("10", Variable::RegexCapture(10));
}

#[test]
fn variable_parse_uuid() {
    assert_ok("u", Variable::Uuid);
}

#[test]
fn parse_ignore_remaning_chars_after_variable() {
    let mut reader = Reader::new("f_");
    Variable::parse(&mut reader).unwrap();
    assert_eq!(reader.position(), 1);
}

#[test]
fn parse_ignore_remaning_chars_capture_group_variable() {
    let mut reader = Reader::new("123_");
    Variable::parse(&mut reader).unwrap();
    assert_eq!(reader.position(), 3);
}

#[test]
fn variable_parse_empty_error() {
    assert_err(
        "",
        Error { kind: ErrorKind::ExpectedVariable, start: 0, end: 0 },
    )
}

#[test]
fn parse_unknown_variable_error() {
    assert_err(
        "-_",
        Error { kind: ErrorKind::UnknownVariable(Char::Raw('-')), start: 0, end: 1 },
    );
}

#[test]
fn eval_filename() {
    assert_eq!(
        Variable::Filename.eval(&make_context()),
        Ok("file.ext".to_string())
    );
}

#[test]
fn eval_basename() {
    assert_eq!(Variable::Basename.eval(&make_context()), Ok("file".to_string()));
}

#[test]
fn variable_eval_extension() {
    assert_eq!(Variable::Extension.eval(&make_context()), Ok("ext".to_string()));
}

#[test]
fn eval_extension_no_ext() {
    let mut context = make_context();
    context.path = "root/parent/file".to_string();
    assert_eq!(Variable::Extension.eval(&context), Ok("".to_string()));
}

#[test]
fn variable_eval_extension_with_dot() {
    assert_eq!(
        Variable::ExtensionWithDot.eval(&make_context()),
        Ok(".ext".to_string())
    );
}

#[test]
fn eval_extension_with_dot_no_ext() {
    let mut context = make_context();
    context.path = "root/parent/file".to_string();
    assert_eq!(Variable::ExtensionWithDot.eval(&context), Ok("".to_string()));
}

#[test]
fn eval_full_dirname() {
    assert_eq!(
        Variable::FullDirname.eval(&make_context()),
        Ok("root/parent".to_string())
    );
}

#[test]
fn eval_full_dirname_no_parent() {
    let mut context = make_context();
    context.path = "file.ext".to_string();
    assert_eq!(Variable::FullDirname.eval(&context), Ok(String::new()));
}

#[test]
fn eval_parent_dirname() {
    assert_eq!(
        Variable::ParentDirname.eval(&make_context()),
        Ok("parent".to_string())
    );
}

#[test]
fn eval_parent_dirname_no_parent() {
    let mut context = make_context();
    context.path = "file.ext".to_string();
    assert_eq!(Variable::ParentDirname.eval(&context), Ok(String::new()));
}

#[test]
fn eval_full_path() {
    assert_eq!(
        Variable::FullPath.eval(&make_context()),
        Ok("root/parent/file.ext".to_string())
    );
}

#[test]
fn variable_eval_local_counter() {
    assert_eq!(Variable::LocalCounter.eval(&make_context()), Ok("1".to_string()));
}

#[test]
fn variable_eval_global_counter() {
    assert_eq!(Variable::GlobalCounter.eval(&make_context()), Ok("2".to_string()));
}

#[test]
fn eval_regex_capture() {
    assert_eq!(
        Variable::RegexCapture(1).eval(&make_context()),
        Ok("abc".to_string())
    );
}

#[test]
fn eval_regex_capture_overflow() {
    assert_eq!(Variable::RegexCapture(2).eval(&make_context()), Ok(String::new()));
}

#[test]
fn variable_eval_uuid() {
    let uuid = Variable::Uuid.eval(&make_context()).unwrap();
    let uuid_regex =
        Regex::new("^[0-9a-f]{8}-[0-9a-f]{4}-4[0-9a-f]{3}-[89ab][0-9a-f]{3}-[0-9a-f]{12}$")
            .unwrap();
    assert!(uuid_regex.is_match(&uuid), "{} is UUID v4", uuid);
}
