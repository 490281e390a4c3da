use xquery_lsp::diagnostics::{
    compile_diagnostics, compile_diagnostics_checked, find_bytes, find_number_after, number_after_checked,
    parse_error_message, parse_error_message_checked, Severity,
};
use xquery_lsp::json::Json;

fn s(t: &str) -> String {
    String::from(t)
}

fn object(members: Vec<(&str, Json)>, rendered: &str) -> Json {
    Json::Object { members: members.into_iter().map(|(k, v)| (s(k), v)).collect(), rendered: s(rendered) }
}

fn number(n: u64) -> Json {
    Json::Number { as_u64: Some(n), rendered: n.to_string() }
}

#[test]
fn number_after_keyword() {
    assert_eq!(find_number_after("error at line 12 column 5", "line"), Some(12));
    assert_eq!(find_number_after("error at line 12 column 5", "column"), Some(5));
    assert_eq!(find_number_after("[at line: 7, column: 3]", "line"), Some(7));
}

#[test]
fn number_after_keyword_ignores_case() {
    assert_eq!(find_number_after("Error on Line 3", "line"), Some(3));
    assert_eq!(find_number_after("LINE:: 44x", "line"), Some(44));
}

#[test]
fn no_number_after_keyword() {
    assert_eq!(find_number_after("no position here", "line"), None);
    assert_eq!(find_number_after("line x", "line"), None);
    assert_eq!(find_number_after("line 99999999999", "line"), None);
}

#[test]
fn number_after_checked_agrees() {
    assert_eq!(number_after_checked("at line 3", "line"), Some(Some(3)));
    assert_eq!(number_after_checked("nothing", "line"), Some(None));
}

#[test]
fn byte_search_finds_first_occurrence() {
    assert_eq!(find_bytes(b"abcabc", b"bc"), Some(1));
    assert_eq!(find_bytes(b"abc", b""), Some(0));
    assert_eq!(find_bytes(b"abc", b"abcd"), None);
    assert_eq!(find_bytes(b"abc", b"x"), None);
}

#[test]
fn error_position_from_message() {
    let e = Json::Str(s("err:XPST0003 unexpected token [at line 3, column 14]"));
    let p = parse_error_message(&e).unwrap();
    assert_eq!((p.line, p.column), (2, 13));
    assert_eq!(p.message, "err:XPST0003 unexpected token [at line 3, column 14]");
}

#[test]
fn error_position_from_members() {
    let e = object(
        vec![("line", Json::Str(s("5"))), ("column", number(9)), ("#text", Json::Str(s("bad thing")))],
        "{}",
    );
    let p = parse_error_message(&e).unwrap();
    assert_eq!((p.line, p.column), (4, 8));
    assert_eq!(p.message, "bad thing");
}

#[test]
fn error_position_defaults_to_origin() {
    let e = object(vec![("line", Json::Null), ("#text", Json::Str(s("oops")))], "{}");
    let p = parse_error_message(&e).unwrap();
    assert_eq!((p.line, p.column), (0, 0));
    let e = object(vec![("line", Json::Str(s("0"))), ("column", Json::Str(s("x"))), ("#text", Json::Str(s("m")))], "{}");
    let p = parse_error_message(&e).unwrap();
    assert_eq!((p.line, p.column), (0, 0));
}

#[test]
fn error_with_line_but_no_text_is_dropped() {
    let e = object(vec![("line", number(3))], "{\"line\":3}");
    assert!(parse_error_message(&e).is_none());
    assert!(matches!(parse_error_message_checked(&e), Some(None)));
}

#[test]
fn error_of_other_shape_reads_as_json() {
    let e = object(vec![("code", number(1))], "{\"code\":1}");
    let p = parse_error_message(&e).unwrap();
    assert_eq!(p.message, "{\"code\":1}");
    assert_eq!((p.line, p.column), (0, 0));
    let p = parse_error_message(&Json::Bool(true)).unwrap();
    assert_eq!(p.message, "true");
}

#[test]
fn passing_document_has_no_diagnostics() {
    let answer = object(vec![("result", Json::Str(s("pass")))], "{}");
    assert!(compile_diagnostics(Some(&answer), "1").is_empty());
    assert!(compile_diagnostics(None, "1").is_empty());
    let answer = object(vec![("result", Json::Str(s("fail")))], "{}");
    assert!(compile_diagnostics(Some(&answer), "1").is_empty());
}

#[test]
fn failing_document_has_one_error() {
    let text = "xquery version \"3.1\";\nlet $x := foo:bar(1)";
    let answer = object(
        vec![
            ("result", Json::Str(s("fail"))),
            ("error", Json::Str(s("err:XPST0081 no namespace for prefix foo [at line 2, column 11]"))),
        ],
        "{}",
    );
    let d = compile_diagnostics(Some(&answer), text);
    assert_eq!(d.len(), 1);
    assert_eq!((d[0].line, d[0].start, d[0].end), (1, 10, 17));
    assert_eq!(d[0].severity, Severity::Error);
    assert_eq!(d[0].source, "xquery");
    let checked = compile_diagnostics_checked(Some(&answer), text).unwrap();
    assert_eq!(checked.len(), 1);
}

#[test]
fn error_pointing_past_the_line_is_refused_by_the_check() {
    let answer = object(vec![("error", Json::Str(s("bad [at line 1, column 50]")))], "{}");
    assert!(compile_diagnostics_checked(Some(&answer), "short").is_none());
}

#[test]
fn large_line_numbers_are_truncated_to_32_bits() {
    let e = object(
        vec![("line", number(4294967298)), ("column", number(0)), ("#text", Json::Str(s("m")))],
        "{}",
    );
    let p = parse_error_message(&e).unwrap();
    assert_eq!((p.line, p.column), (1, 0));
}
