use xquery_lsp::cursor::{count_arity, function_at_position, token_end, token_end_in_range};
use xquery_lsp::text::{chars_of, format_decimal, line_span, parse_u32};

#[test]
fn arity_counts_top_level_arguments() {
    assert_eq!(count_arity(b"f(a, b, c)", 1), 3);
    assert_eq!(count_arity(b"f(a, g(b, c), d)", 1), 3);
    assert_eq!(count_arity(b"f(a)", 1), 1);
}

#[test]
fn arity_of_empty_argument_list_is_zero() {
    assert_eq!(count_arity(b"f()", 1), 0);
    assert_eq!(count_arity(b"f(  \n\t )", 1), 0);
}

#[test]
fn arity_without_open_bracket_is_zero() {
    assert_eq!(count_arity(b"f(a)", 0), 0);
    assert_eq!(count_arity(b"f(a)", 10), 0);
}

#[test]
fn arity_of_unclosed_list_counts_what_was_seen() {
    assert_eq!(count_arity(b"f(a, b", 1), 2);
    assert_eq!(count_arity(b"f(,", 1), 2);
}

#[test]
fn function_under_cursor_with_arity() {
    let text = "let $x := local:add(1, 2)\nreturn $x";
    assert_eq!(function_at_position(text, 0, 12), Some((String::from("local:add"), 2)));
    assert_eq!(function_at_position(text, 0, 10), Some((String::from("local:add"), 2)));
    assert_eq!(function_at_position(text, 0, 18), Some((String::from("local:add"), 2)));
}

#[test]
fn function_on_later_line_counts_bytes_of_earlier_lines() {
    let text = "xquery version \"3.1\";\n\nfn:concat(\"a\", \"b\", \"c\")";
    assert_eq!(function_at_position(text, 2, 3), Some((String::from("fn:concat"), 3)));
}

#[test]
fn function_with_blank_before_bracket() {
    let text = "count (  $items )";
    assert_eq!(function_at_position(text, 0, 2), Some((String::from("count"), 1)));
}

#[test]
fn no_function_when_not_followed_by_bracket() {
    assert_eq!(function_at_position("let $x := foo", 0, 11), None);
    assert_eq!(function_at_position("foo bar()", 0, 1), None);
}

#[test]
fn no_function_off_the_text() {
    assert_eq!(function_at_position("f()", 0, 3), None);
    assert_eq!(function_at_position("f()", 1, 0), None);
    assert_eq!(function_at_position("f( )", 0, 1), None);
}

#[test]
fn unicode_name_characters_count() {
    let text = "été(1)";
    assert_eq!(function_at_position(text, 0, 1), Some((String::from("été"), 1)));
}

#[test]
fn token_end_covers_the_name() {
    let text = "abc local:foo-bar(1)";
    assert_eq!(token_end(text, 0, 4), 17);
    assert_eq!(token_end(text, 0, 3), 4);
    assert_eq!(token_end(text, 0, 20), 21);
}

#[test]
fn token_end_past_the_last_line() {
    assert_eq!(token_end("abc", 5, 7), 8);
}

#[test]
fn token_end_range_check() {
    assert!(token_end_in_range("abc", 0, 3));
    assert!(!token_end_in_range("abc", 0, 4));
    assert!(token_end_in_range("abc", 3, 100));
    assert!(!token_end_in_range("abc", 3, u32::MAX));
}

#[test]
fn lines_drop_carriage_return_before_newline() {
    let v = chars_of("ab\r\ncd\r\n\nef\r");
    assert_eq!(line_span(&v, 0), Some((0, 2)));
    assert_eq!(line_span(&v, 1), Some((4, 6)));
    assert_eq!(line_span(&v, 2), Some((8, 8)));
    assert_eq!(line_span(&v, 3), Some((9, 12)));
    assert_eq!(line_span(&v, 4), None);
}

#[test]
fn trailing_newline_adds_no_line() {
    let v = chars_of("a\n");
    assert!(line_span(&v, 0).is_some());
    assert_eq!(line_span(&v, 1), None);
    let empty = chars_of("");
    assert_eq!(line_span(&empty, 0), None);
}

#[test]
fn parse_u32_like_from_str() {
    let v = chars_of("+42");
    assert_eq!(parse_u32(&v, 0, v.len()), Some(42));
    let v = chars_of("4294967295");
    assert_eq!(parse_u32(&v, 0, v.len()), Some(u32::MAX));
    let v = chars_of("4294967296");
    assert_eq!(parse_u32(&v, 0, v.len()), None);
    let v = chars_of("");
    assert_eq!(parse_u32(&v, 0, 0), None);
    let v = chars_of("+");
    assert_eq!(parse_u32(&v, 0, 1), None);
    let v = chars_of("-1");
    assert_eq!(parse_u32(&v, 0, 2), None);
    let v = chars_of("12a");
    assert_eq!(parse_u32(&v, 0, 3), None);
}

#[test]
fn decimal_formatting_reads_back() {
    assert_eq!(format_decimal(0), "0");
    assert_eq!(format_decimal(7), "7");
    assert_eq!(format_decimal(1234), "1234");
    let s = format_decimal(4294967295);
    let v = chars_of(&s);
    assert_eq!(parse_u32(&v, 0, v.len()), Some(4294967295));
}

#[test]
fn carriage_returns_are_counted_before_the_bracket() {
    assert_eq!(function_at_position("a\r\nf(1)", 1, 0), Some((String::from("f"), 1)));
    assert_eq!(function_at_position("x\r\nf(a)", 1, 0), Some((String::from("f"), 1)));
    assert_eq!(function_at_position("a\nf(1)", 1, 0), Some((String::from("f"), 1)));
    assert_eq!(function_at_position("a\r\n\r\nf(1, 2)", 2, 0), Some((String::from("f"), 2)));
}

#[test]
fn wide_blank_before_bracket_is_skipped() {
    assert_eq!(function_at_position("f\u{a0}(a)", 0, 0), Some((String::from("f"), 1)));
    assert_eq!(function_at_position("g\u{3000}\u{2003}(a, b)", 0, 0), Some((String::from("g"), 2)));
}

#[test]
fn bracketed_argument_counts_as_one() {
    assert_eq!(count_arity(b"f((1, 2))", 1), 1);
    assert_eq!(count_arity(b"f((1, 2), 3)", 1), 2);
    assert_eq!(count_arity(b"f(())", 1), 1);
    assert_eq!(function_at_position("concat((1, 2))", 0, 0), Some((String::from("concat"), 1)));
}

#[test]
fn arity_reads_only_the_argument_list() {
    let alone = count_arity(b"f(a, (b), c)", 1);
    assert_eq!(alone, 3);
    assert_eq!(count_arity(b"let $x := f(a, (b), c) , g(d)", 11), alone);
    assert_eq!(count_arity(b"zz f(a, (b), c)", 4), alone);
}

#[test]
fn any_column_of_a_name_finds_the_same_call() {
    let text = "x\r\n  fn:sum(1, 2) + 3";
    for col in 2..8 {
        assert_eq!(function_at_position(text, 1, col), Some((String::from("fn:sum"), 2)));
    }
    assert_eq!(function_at_position(text, 1, 1), None);
}
