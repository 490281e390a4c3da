//! Turning the compiler's verdict on a document into editor diagnostics: where
//! an error message says the error is, and what the diagnostic covers.
use vstd::prelude::*;
use vstd::utf8::*;
use crate::cursor::{token_end, token_end_defined, token_end_in_range, token_end_spec};
use crate::json::{json_as_str, json_as_u64, json_get, json_index, json_rendering, Json};
use crate::text::{byte_len, chars_of, lemma_byte_len_encode, lemma_byte_len_take_next, parse_u32, parse_u32_spec, str_byte_len, utf8_width};

verus! {

// ---------------------------------------------------------------------------
// Lower-casing and substring search
// ---------------------------------------------------------------------------

/// The lower-case mapping of `s`, as `str::to_lowercase` computes it.
pub uninterp spec fn unicode_lowercase(s: Seq<char>) -> Seq<char>;

/// `str::to_lowercase`; the result is named `unicode_lowercase`.
#[verifier::external_body]
pub(crate) fn to_lowercase(s: &str) -> (r: String)
    ensures
        r@ == unicode_lowercase(s@),
{
    s.to_lowercase()
}

/// First position at or after `i` where `needle` occurs in `hay`.
pub open spec fn find_from(hay: Seq<u8>, needle: Seq<u8>, i: nat) -> Option<nat>
    decreases hay.len() + 1 - i,
{
    if i + needle.len() > hay.len() {
        None
    } else if hay.subrange(i as int, (i + needle.len()) as int) == needle {
        Some(i)
    } else {
        find_from(hay, needle, i + 1)
    }
}

proof fn lemma_find_from_range(hay: Seq<u8>, needle: Seq<u8>, i: nat)
    ensures
        find_from(hay, needle, i) matches Some(p) ==> i <= p && p + needle.len() <= hay.len(),
    decreases hay.len() + 1 - i,
{
    if i + needle.len() <= hay.len() && hay.subrange(i as int, (i + needle.len()) as int) != needle {
        lemma_find_from_range(hay, needle, i + 1);
    }
}

/// Byte offset of the first occurrence of `needle` in `hay`, as `str::find`
/// reports it.
pub fn find_bytes(hay: &[u8], needle: &[u8]) -> (r: Option<usize>)
    ensures
        match find_from(hay@, needle@, 0) {
            None => r is None,
            Some(p) => r matches Some(x) && x as nat == p,
        },
        r matches Some(p) ==> p + needle.len() <= hay.len(),
{
    proof {
        lemma_find_from_range(hay@, needle@, 0);
    }
    if needle.len() > hay.len() {
        return None;
    }
    let last = hay.len() - needle.len();
    let mut i: usize = 0;
    while i <= last
        invariant
            last == hay.len() - needle.len(),
            needle.len() <= hay.len(),
            find_from(hay@, needle@, 0) == find_from(hay@, needle@, i as nat),
        decreases last + 1 - i,
    {
        let mut j: usize = 0;
        let mut same = true;
        while j < needle.len()
            invariant
                i <= last,
                last == hay.len() - needle.len(),
                j <= needle.len(),
                same <==> forall|k: int| 0 <= k < j ==> hay@[i + k] == needle@[k],
            decreases needle.len() - j,
        {
            if hay[i + j] != needle[j] {
                same = false;
            }
            j += 1;
        }
        proof {
            if same {
                assert(hay@.subrange(i as int, i + needle.len()) =~= needle@);
            } else {
                assert(hay@.subrange(i as int, i + needle.len()) != needle@) by {
                    let k = choose|k: int| 0 <= k < j && hay@[i + k] != needle@[k];
                    assert(hay@.subrange(i as int, i + needle.len())[k] == hay@[i + k]);
                }
            }
        }
        if same {
            return Some(i);
        }
        i += 1;
    }
    None
}

// ---------------------------------------------------------------------------
// Numbers after a keyword
// ---------------------------------------------------------------------------

/// `':'` or `' '`.
pub open spec fn is_separator_byte(b: u8) -> bool {
    b == 0x3au8 || b == 0x20u8
}

/// An ASCII decimal digit.
pub open spec fn is_digit_byte(b: u8) -> bool {
    0x30u8 <= b && b <= 0x39u8
}

/// Number of leading separator bytes of `s`.
pub open spec fn leading_separators(s: Seq<u8>) -> nat
    decreases s.len(),
{
    if s.len() > 0 && is_separator_byte(s[0]) {
        1 + leading_separators(s.drop_first())
    } else {
        0
    }
}

/// Number of leading digit bytes of `s`.
pub open spec fn leading_digits(s: Seq<u8>) -> nat
    decreases s.len(),
{
    if s.len() > 0 && is_digit_byte(s[0]) {
        1 + leading_digits(s.drop_first())
    } else {
        0
    }
}

/// The number that the digit bytes `d` write in base ten.
pub open spec fn digit_bytes_value(d: Seq<u8>) -> nat
    decreases d.len(),
{
    if d.len() == 0 {
        0
    } else {
        10 * digit_bytes_value(d.drop_last()) + (d.last() - 0x30u8) as nat
    }
}

/// Whether a byte offset of the UTF-8 encoding of `s` starts a character (or
/// is its end).
pub open spec fn is_char_offset(s: Seq<char>, i: int) -> bool {
    exists|k: int| 0 <= k <= s.len() && byte_len(#[trigger] s.take(k)) == i
}

/// Where the number after `kw` starts in the bytes of `s`: just past the first
/// occurrence of `kw` in the lower-cased text, counted in that text's bytes.
pub open spec fn number_offset(s: Seq<char>, kw: Seq<char>) -> Option<nat> {
    match find_from(encode_utf8(unicode_lowercase(s)), encode_utf8(kw), 0) {
        None => None,
        Some(p) => Some(p + encode_utf8(kw).len()),
    }
}

/// Whether `s` itself can be cut at that offset.
pub open spec fn number_after_defined(s: Seq<char>, kw: Seq<char>) -> bool {
    match number_offset(s, kw) {
        None => true,
        Some(i) => is_char_offset(s, i as int),
    }
}

/// The number written after the first occurrence of `kw` (found without
/// regard to case) in `s`: separators `':'` and `' '` are skipped and the
/// digits that follow are read; `None` when `kw` does not occur, when no digit
/// follows or when the number does not fit in a `u32`.
pub open spec fn number_after(s: Seq<char>, kw: Seq<char>) -> Option<u32> {
    match number_offset(s, kw) {
        None => None,
        Some(i) => {
            let rest = encode_utf8(s).skip(i as int);
            let t = rest.skip(leading_separators(rest) as int);
            let d = t.take(leading_digits(t) as int);
            if d.len() == 0 || digit_bytes_value(d) > u32::MAX {
                None
            } else {
                Some(digit_bytes_value(d) as u32)
            }
        },
    }
}

proof fn lemma_leading_separators(s: Seq<u8>, i: int)
    requires
        0 <= i <= s.len(),
        forall|j: int| 0 <= j < i ==> is_separator_byte(#[trigger] s[j]),
    ensures
        leading_separators(s) == i + leading_separators(s.skip(i)),
    decreases i,
{
    if i > 0 {
        assert(s.drop_first().skip(i - 1) =~= s.skip(i));
        assert forall|j: int| 0 <= j < i - 1 implies is_separator_byte(#[trigger] s.drop_first()[j]) by {
            assert(s.drop_first()[j] == s[j + 1]);
        }
        lemma_leading_separators(s.drop_first(), i - 1);
    } else {
        assert(s.skip(0) =~= s);
    }
}

proof fn lemma_leading_digits(s: Seq<u8>, i: int)
    requires
        0 <= i <= s.len(),
        forall|j: int| 0 <= j < i ==> is_digit_byte(#[trigger] s[j]),
    ensures
        leading_digits(s) == i + leading_digits(s.skip(i)),
    decreases i,
{
    if i > 0 {
        assert(s.drop_first().skip(i - 1) =~= s.skip(i));
        assert forall|j: int| 0 <= j < i - 1 implies is_digit_byte(#[trigger] s.drop_first()[j]) by {
            assert(s.drop_first()[j] == s[j + 1]);
        }
        lemma_leading_digits(s.drop_first(), i - 1);
    } else {
        assert(s.skip(0) =~= s);
    }
}

/// The number after `keyword` in `s`, as described by `number_after`.
pub fn find_number_after(s: &str, keyword: &str) -> (r: Option<u32>)
    requires
        number_after_defined(s@, keyword@),
    ensures
        r == number_after(s@, keyword@),
{
    let lower = to_lowercase(s);
    let lb = lower.as_str().as_bytes();
    let kb = keyword.as_bytes();
    let pos = match find_bytes(lb, kb) {
        None => return None,
        Some(p) => p,
    };
    let sb = s.as_bytes();
    let start = pos + kb.len();
    proof {
        assert(lb@ == encode_utf8(unicode_lowercase(s@)));
        assert(kb@ == encode_utf8(keyword@));
        assert(number_offset(s@, keyword@) == Some(start as nat));
        assert(is_char_offset(s@, start as int));
        let k = choose|k: int| 0 <= k <= s@.len() && byte_len(#[trigger] s@.take(k)) == start;
        crate::text::lemma_byte_len_split(s@, k);
        lemma_byte_len_encode(s@);
    }
    let ghost rest = sb@.skip(start as int);
    let mut i = start;
    while i < sb.len() && (sb[i] == 0x3au8 || sb[i] == 0x20u8)
        invariant
            start <= i <= sb.len(),
            rest == sb@.skip(start as int),
            forall|j: int| 0 <= j < i - start ==> is_separator_byte(#[trigger] rest[j]),
        decreases sb.len() - i,
    {
        proof {
            assert(rest[i - start] == sb@[i as int]);
        }
        i += 1;
    }
    proof {
        lemma_leading_separators(rest, i - start);
        let after = rest.skip(i - start);
        if i < sb.len() {
            assert(after[0] == sb@[i as int]);
        } else {
            assert(after.len() == 0);
        }
    }
    let ghost t = sb@.skip(i as int);
    proof {
        assert(rest.skip(i - start) =~= t);
    }
    let digits_start = i;
    let mut acc: u64 = 0;
    let mut over = false;
    while i < sb.len() && 0x30u8 <= sb[i] && sb[i] <= 0x39u8
        invariant
            digits_start <= i <= sb.len(),
            t == sb@.skip(digits_start as int),
            forall|j: int| 0 <= j < i - digits_start ==> is_digit_byte(#[trigger] t[j]),
            over <==> digit_bytes_value(t.take(i - digits_start)) > u32::MAX,
            !over ==> acc == digit_bytes_value(t.take(i - digits_start)),
        decreases sb.len() - i,
    {
        proof {
            assert(t[i - digits_start] == sb@[i as int]);
            assert(t.take(i - digits_start + 1).drop_last() =~= t.take(i - digits_start));
        }
        if !over {
            let next = acc * 10 + (sb[i] - 0x30u8) as u64;
            if next > u32::MAX as u64 {
                over = true;
            } else {
                acc = next;
            }
        }
        i += 1;
    }
    proof {
        lemma_leading_digits(t, i - digits_start);
        let after = t.skip(i - digits_start);
        if i < sb.len() {
            assert(after[0] == sb@[i as int]);
        } else {
            assert(after.len() == 0);
        }
    }
    if i == digits_start || over {
        None
    } else {
        Some(acc as u32)
    }
}

/// Whether `s` can be cut at byte offset `i`.
fn char_offset_check(s: &str, i: usize) -> (r: bool)
    ensures
        r == is_char_offset(s@, i as int),
{
    let v = chars_of(s);
    let _ = str_byte_len(s);
    let mut k: usize = 0;
    let mut acc: usize = 0;
    proof {
        assert(s@.take(0) =~= Seq::<char>::empty());
    }
    while k < v.len()
        invariant
            k <= v.len(),
            v@ == s@,
            byte_len(s@) <= usize::MAX,
            acc == byte_len(s@.take(k as int)),
            forall|j: int| 0 <= j < k ==> byte_len(#[trigger] s@.take(j)) < acc,
            forall|j: int| 0 <= j < k ==> byte_len(#[trigger] s@.take(j)) != i,
        decreases v.len() - k,
    {
        if acc == i {
            return true;
        }
        proof {
            lemma_byte_len_take_next(s@, k as int);
            crate::text::lemma_byte_len_split(s@, k + 1);
        }
        acc = acc + utf8_width(v[k]);
        k += 1;
    }
    proof {
        assert(s@.take(v.len() as int) =~= s@);
    }
    if acc == i {
        return true;
    }
    proof {
        assert forall|j: int| 0 <= j <= s@.len() implies byte_len(#[trigger] s@.take(j)) != i by {
            if j == s@.len() {
                assert(s@.take(j) =~= s@.take(k as int));
            }
        }
    }
    false
}

/// The number after `keyword`, or `None` when `s` cannot be cut where the
/// number would start (the one case that `find_number_after` leaves out).
pub fn number_after_checked(s: &str, keyword: &str) -> (r: Option<Option<u32>>)
    ensures
        r is Some <==> number_after_defined(s@, keyword@),
        r matches Some(n) ==> n == number_after(s@, keyword@),
{
    let lower = to_lowercase(s);
    let kb = keyword.as_bytes();
    match find_bytes(lower.as_str().as_bytes(), kb) {
        None => Some(find_number_after(s, keyword)),
        Some(p) => {
            proof {
                assert(kb@ == encode_utf8(keyword@));
                assert(number_offset(s@, keyword@) == Some((p + kb.len()) as nat));
            }
            if char_offset_check(s, p + kb.len()) {
                Some(find_number_after(s, keyword))
            } else {
                None
            }
        },
    }
}

// ---------------------------------------------------------------------------
// Error positions
// ---------------------------------------------------------------------------

/// An error the compiler reported: a zero-based position and its message.
pub struct ParsedError {
    pub line: u32,
    pub column: u32,
    pub message: String,
}

/// The message of a compiler error: its `#text` member when it has a `line`
/// member (no message when that is not a string), the text of a string, and
/// the JSON text of anything else.
pub open spec fn error_text(error: Json) -> Option<Seq<char>> {
    if json_get(error, "line"@) is Some {
        json_as_str(json_index(error, "#text"@))
    } else {
        match error {
            Json::Str(s) => Some(s@),
            _ => Some(json_rendering(error)),
        }
    }
}

/// `n - 1`, or 0 for 0.
pub open spec fn minus_one(n: u32) -> u32 {
    if n == 0 {
        0
    } else {
        (n - 1) as u32
    }
}

/// A one-based number stored in member `key`, made zero-based: a string is
/// parsed, a number is truncated to 32 bits, and anything else counts as 1.
pub open spec fn member_number(error: Json, key: Seq<char>) -> u32 {
    let v = json_index(error, key);
    let n = match json_as_str(v) {
        Some(s) => match parse_u32_spec(s) {
            Some(n) => Some(n),
            None => None,
        },
        None => None,
    };
    let n = match n {
        Some(n) => n,
        None => match json_as_u64(v) {
            Some(m) => m as u32,
            None => 1u32,
        },
    };
    minus_one(n)
}

/// What `parse_error_message` makes of an error: its message, and the
/// zero-based line and column that the message names after "line" and
/// "column", or else that the `line` and `column` members give.
pub open spec fn parse_error_spec(error: Json) -> Option<(u32, u32, Seq<char>)> {
    match error_text(error) {
        None => None,
        Some(msg) => match (number_after(msg, "line"@), number_after(msg, "column"@)) {
            (Some(l), Some(c)) => Some((minus_one(l), minus_one(c), msg)),
            _ => Some((member_number(error, "line"@), member_number(error, "column"@), msg)),
        },
    }
}

/// Whether `parse_error_message` is defined on `error`: the keywords can be
/// looked for in its message.
pub open spec fn error_readable(error: Json) -> bool {
    match error_text(error) {
        None => true,
        Some(msg) => number_after_defined(msg, "line"@) && number_after_defined(msg, "column"@),
    }
}

fn saturating_dec(n: u32) -> (r: u32)
    ensures
        r == minus_one(n),
{
    if n == 0 {
        0
    } else {
        n - 1
    }
}

fn member_number_of(error: &Json, key: &str) -> (r: u32)
    ensures
        r == member_number(*error, key@),
{
    let v = match error.get(key) {
        Some(v) => v,
        None => &Json::Null,
    };
    let parsed = match v.as_str() {
        Some(s) => {
            let cs = chars_of(s.as_str());
            parse_u32(&cs, 0, cs.len())
        },
        None => None,
    };
    proof {
        if let Some(s) = json_as_str(*v) {
            let cs = s;
            assert(cs.subrange(0, cs.len() as int) =~= cs);
        }
    }
    let n = match parsed {
        Some(n) => n,
        None => match v.as_u64() {
            Some(m) => {
                #[verifier::truncate]
                (m as u32)
            },
            None => 1,
        },
    };
    saturating_dec(n)
}

/// The message of a compiler error, as `error_text` states it.
fn error_message(error: &Json) -> (r: Option<String>)
    ensures
        match error_text(*error) {
            None => r is None,
            Some(m) => r matches Some(s) && s@ == m,
        },
{
    if error.get("line").is_some() {
        match error.str_member("#text") {
            Some(t) => Some(t.clone()),
            None => None,
        }
    } else {
        let text = match error {
            Json::Str(s) => s.clone(),
            Json::Null => String::from_str("null"),
            Json::Bool(b) => if *b {
                String::from_str("true")
            } else {
                String::from_str("false")
            },
            Json::Number { rendered, .. } => rendered.clone(),
            Json::Array { rendered, .. } => rendered.clone(),
            Json::Object { rendered, .. } => rendered.clone(),
        };
        Some(text)
    }
}

/// The zero-based line and column of an error: those found after "line" and
/// "column" in its message when both were, else its members'.
fn error_position(error: &Json, found_line: Option<u32>, found_column: Option<u32>) -> (r: (u32, u32))
    ensures
        match (found_line, found_column) {
            (Some(l), Some(c)) => r == (minus_one(l), minus_one(c)),
            _ => r == (member_number(*error, "line"@), member_number(*error, "column"@)),
        },
{
    match (found_line, found_column) {
        (Some(l), Some(c)) => (saturating_dec(l), saturating_dec(c)),
        _ => (member_number_of(error, "line"), member_number_of(error, "column")),
    }
}

/// The message and zero-based position of a compiler error.
pub fn parse_error_message(error: &Json) -> (r: Option<ParsedError>)
    requires
        error_readable(*error),
    ensures
        match parse_error_spec(*error) {
            None => r is None,
            Some((l, c, m)) => r matches Some(e) && e.line == l && e.column == c && e.message@ == m,
        },
{
    let msg = match error_message(error) {
        Some(m) => m,
        None => return None,
    };
    let found_line = find_number_after(msg.as_str(), "line");
    let found_column = find_number_after(msg.as_str(), "column");
    let (line, column) = error_position(error, found_line, found_column);
    Some(ParsedError { line, column, message: msg })
}

/// The message and position of a compiler error, or `None` when the message
/// cannot be cut where a number would start (the case that
/// `parse_error_message` leaves out).
pub fn parse_error_message_checked(error: &Json) -> (r: Option<Option<ParsedError>>)
    ensures
        r is Some <==> error_readable(*error),
        r matches Some(p) ==> match parse_error_spec(*error) {
            None => p is None,
            Some((l, c, m)) => p matches Some(e) && e.line == l && e.column == c && e.message@ == m,
        },
{
    let msg = match error_message(error) {
        Some(m) => m,
        None => return Some(None),
    };
    let found_line = number_after_checked(msg.as_str(), "line");
    let found_column = number_after_checked(msg.as_str(), "column");
    match (found_line, found_column) {
        (Some(l), Some(c)) => {
            let (line, column) = error_position(error, l, c);
            Some(Some(ParsedError { line, column, message: msg }))
        },
        _ => None,
    }
}

// ---------------------------------------------------------------------------
// Diagnostics from the compiler's answer
// ---------------------------------------------------------------------------

/// How serious a message to the user is.
#[derive(PartialEq, Eq, Structural, Clone, Copy, Debug)]
pub enum Severity {
    Error,
    Warning,
    Info,
}

/// A problem shown on one line of a document, from `start` up to `end`
/// (zero-based character columns), with where it came from.
pub struct Diagnostic {
    pub line: u32,
    pub start: u32,
    pub end: u32,
    pub severity: Severity,
    pub message: String,
    pub source: String,
}

/// The error member of the compiler's answer, unless the answer says the
/// document passed.
pub open spec fn reported_error(answer: Json) -> Option<Json> {
    if json_get(answer, "result"@) matches Some(r) && json_as_str(r) == Some("pass"@) {
        None
    } else {
        json_get(answer, "error"@)
    }
}

/// The answer behind an optional reference.
pub open spec fn answer_value(answer: Option<&Json>) -> Option<Json> {
    match answer {
        None => None,
        Some(a) => Some(*a),
    }
}

/// Whether `compile_diagnostics` is defined on the answer: the error message
/// can be read, and the end of the token it points at can be found.
pub open spec fn compile_answer_readable(answer: Option<Json>, text: Seq<char>) -> bool {
    match answer {
        None => true,
        Some(a) => match reported_error(a) {
            None => true,
            Some(e) => error_readable(e) && match parse_error_spec(e) {
                None => true,
                Some((l, c, _m)) => token_end_defined(text, l, c),
            },
        },
    }
}

/// The diagnostics for `text` given the compiler's answer (`None` when no
/// answer came): none when it passed or says nothing of an error, else one
/// error diagnostic from the error's position to the end of the token there,
/// labelled "xquery".
pub open spec fn compile_diagnostics_spec(answer: Option<Json>, text: Seq<char>, r: Seq<Diagnostic>) -> bool {
    match answer {
        None => r.len() == 0,
        Some(a) => match reported_error(a) {
            None => r.len() == 0,
            Some(e) => match parse_error_spec(e) {
                None => r.len() == 0,
                Some((l, c, m)) => {
                    &&& r.len() == 1
                    &&& r[0].line == l
                    &&& r[0].start == c
                    &&& r[0].end == token_end_spec(text, l, c)
                    &&& r[0].severity == Severity::Error
                    &&& r[0].message@ == m
                    &&& r[0].source@ == "xquery"@
                },
            },
        },
    }
}

fn error_of(answer: &Json) -> (r: Option<&Json>)
    ensures
        match reported_error(*answer) {
            None => r is None,
            Some(e) => r matches Some(x) && *x == e,
        },
{
    let passed = match answer.get("result") {
        Some(res) => match res.as_str() {
            Some(s) => crate::text::str_eq(s.as_str(), "pass"),
            None => false,
        },
        None => false,
    };
    if passed {
        return None;
    }
    answer.get("error")
}

/// The diagnostics for `text` from the compiler's answer.
pub fn compile_diagnostics(answer: Option<&Json>, text: &str) -> (r: Vec<Diagnostic>)
    requires
        compile_answer_readable(answer_value(answer), text@),
    ensures
        compile_diagnostics_spec(answer_value(answer), text@, r@),
{
    let a = match answer {
        None => return Vec::new(),
        Some(a) => a,
    };
    let error = match error_of(a) {
        None => return Vec::new(),
        Some(e) => e,
    };
    match parse_error_message(error) {
        None => Vec::new(),
        Some(err) => {
            let end = token_end(text, err.line, err.column);
            let mut out = Vec::new();
            out.push(
                Diagnostic {
                    line: err.line,
                    start: err.column,
                    end,
                    severity: Severity::Error,
                    message: err.message,
                    source: String::from_str("xquery"),
                },
            );
            out
        },
    }
}

/// The diagnostics for `text` from the compiler's answer, or `None` on the
/// answers that `compile_diagnostics` leaves out.
pub fn compile_diagnostics_checked(answer: Option<&Json>, text: &str) -> (r: Option<Vec<Diagnostic>>)
    ensures
        r is Some <==> compile_answer_readable(answer_value(answer), text@),
        r matches Some(d) ==> compile_diagnostics_spec(answer_value(answer), text@, d@),
{
    let a = match answer {
        None => return Some(compile_diagnostics(answer, text)),
        Some(a) => a,
    };
    let error = match error_of(a) {
        None => return Some(compile_diagnostics(answer, text)),
        Some(e) => e,
    };
    match parse_error_message_checked(error) {
        None => None,
        Some(None) => Some(compile_diagnostics(answer, text)),
        Some(Some(err)) => {
            if token_end_in_range(text, err.line, err.column) {
                Some(compile_diagnostics(answer, text))
            } else {
                None
            }
        },
    }
}

} // verus!
