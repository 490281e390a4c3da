//! What lies under the cursor: the extent of a token, the function call whose
//! name the cursor is on, and the number of arguments of that call.
use vstd::prelude::*;
use vstd::utf8::*;
use crate::text::{
    byte_len, chars_of, is_alphanumeric, is_whitespace, lemma_byte_len_encode, lemma_byte_len_subrange,
    lemma_encoding_at, lemma_line_in_text, line_bytes, line_span, line_start, lines, slice_chars, str_byte_len, string_from_chars,
    unicode_alphanumeric, unicode_whitespace,
};

verus! {

// ---------------------------------------------------------------------------
// Argument counting
// ---------------------------------------------------------------------------

/// Space, tab, line feed or carriage return.
pub open spec fn is_blank_byte(b: u8) -> bool {
    b == 0x20u8 || b == 0x09u8 || b == 0x0au8 || b == 0x0du8
}

/// The arity that an argument list has once `commas` separators were seen at
/// the top level, `content` telling whether anything but blanks was.
pub open spec fn arity_of(commas: nat, content: bool) -> nat {
    if content {
        commas + 1
    } else {
        0
    }
}

/// Scans `bytes[i..]` inside an argument list nested `depth` deep: brackets
/// change the depth, the closing bracket of the list ends the scan, commas at
/// the top level separate arguments and any other non-blank byte there,
/// an opening bracket included, is content. Running off the end counts what
/// was seen.
pub open spec fn arity_scan(bytes: Seq<u8>, i: nat, depth: nat, commas: nat, content: bool) -> nat
    decreases bytes.len() - i,
{
    if i >= bytes.len() {
        arity_of(commas, content)
    } else {
        let b = bytes[i as int];
        if b == 0x28u8 {
            arity_scan(bytes, i + 1, depth + 1, commas, content || depth == 1)
        } else if b == 0x29u8 {
            if depth <= 1 {
                arity_of(commas, content)
            } else {
                arity_scan(bytes, i + 1, (depth - 1) as nat, commas, content)
            }
        } else if b == 0x2cu8 && depth == 1 {
            arity_scan(bytes, i + 1, depth, commas + 1, true)
        } else if is_blank_byte(b) {
            arity_scan(bytes, i + 1, depth, commas, content)
        } else if depth == 1 {
            arity_scan(bytes, i + 1, depth, commas, true)
        } else {
            arity_scan(bytes, i + 1, depth, commas, content)
        }
    }
}

/// Number of arguments of the call whose `(` is at `offset`; zero when there
/// is no `(` there.
pub open spec fn arity_at(bytes: Seq<u8>, offset: nat) -> nat {
    if offset >= bytes.len() || bytes[offset as int] != 0x28u8 {
        0
    } else {
        arity_scan(bytes, offset + 1, 1, 0, false)
    }
}

/// Counts the arguments of the call whose opening bracket is `bytes[offset]`.
pub fn count_arity(bytes: &[u8], offset: usize) -> (r: usize)
    ensures
        r == arity_at(bytes@, offset as nat),
{
    if offset >= bytes.len() || bytes[offset] != 0x28u8 {
        return 0;
    }
    let mut depth: usize = 1;
    let mut commas: usize = 0;
    let mut has_content = false;
    let mut i = offset + 1;
    while i < bytes.len()
        invariant
            offset < i <= bytes.len(),
            1 <= depth <= i - offset,
            commas < i - offset,
            arity_at(bytes@, offset as nat) == arity_scan(bytes@, i as nat, depth as nat, commas as nat, has_content),
        decreases bytes.len() - i,
    {
        let b = bytes[i];
        if b == 0x28u8 {
            if depth == 1 {
                has_content = true;
            }
            depth = depth + 1;
        } else if b == 0x29u8 {
            if depth == 1 {
                return if has_content { commas + 1 } else { 0 };
            }
            depth = depth - 1;
        } else if b == 0x2cu8 && depth == 1 {
            commas = commas + 1;
            has_content = true;
        } else if b == 0x20u8 || b == 0x09u8 || b == 0x0au8 || b == 0x0du8 {
        } else if depth == 1 {
            has_content = true;
        }
        i = i + 1;
    }
    if has_content {
        commas + 1
    } else {
        0
    }
}

// ---------------------------------------------------------------------------
// Names under the cursor
// ---------------------------------------------------------------------------

/// A character that can stand in a qualified XQuery name.
pub open spec fn is_qname_char(c: char) -> bool {
    unicode_alphanumeric(c) || c == '-' || c == '_' || c == '.' || c == ':'
}

/// Start of the run of name characters that ends just before `i`.
pub open spec fn run_start(l: Seq<char>, i: int) -> int
    decreases i,
{
    if i <= 0 {
        0
    } else if !is_qname_char(l[i - 1]) {
        i
    } else {
        run_start(l, i - 1)
    }
}

/// End of the run of name characters that starts at `i`.
pub open spec fn run_end(l: Seq<char>, i: int) -> int
    decreases l.len() - i,
{
    if i >= l.len() {
        l.len() as int
    } else if !is_qname_char(l[i]) {
        i
    } else {
        run_end(l, i + 1)
    }
}

/// Number of leading whitespace characters of `s`.
pub open spec fn leading_ws(s: Seq<char>) -> nat
    decreases s.len(),
{
    if s.len() > 0 && unicode_whitespace(s[0]) {
        1 + leading_ws(s.drop_first())
    } else {
        0
    }
}

fn qname(c: char) -> (r: bool)
    ensures
        r == is_qname_char(c),
{
    is_alphanumeric(c) || c == '-' || c == '_' || c == '.' || c == ':'
}

proof fn lemma_run_end_range(l: Seq<char>, i: int)
    requires
        0 <= i <= l.len(),
    ensures
        i <= run_end(l, i) <= l.len(),
    decreases l.len() - i,
{
    if i < l.len() && is_qname_char(l[i]) {
        lemma_run_end_range(l, i + 1);
    }
}

proof fn lemma_run_start_range(l: Seq<char>, i: int)
    requires
        0 <= i <= l.len(),
    ensures
        0 <= run_start(l, i) <= i,
    decreases i,
{
    if i > 0 && is_qname_char(l[i - 1]) {
        lemma_run_start_range(l, i - 1);
    }
}

/// `run_end(l, from)` computed by scanning.
fn scan_run_end(l: &Vec<char>, from: usize) -> (e: usize)
    requires
        from <= l.len(),
    ensures
        e == run_end(l@, from as int),
{
    proof {
        lemma_run_end_range(l@, from as int);
    }
    let mut e = from;
    while e < l.len() && qname(l[e])
        invariant
            from <= e <= l.len(),
            run_end(l@, from as int) == run_end(l@, e as int),
        decreases l.len() - e,
    {
        e = e + 1;
    }
    e
}

/// `run_start(l, to)` computed by scanning backwards.
fn scan_run_start(l: &Vec<char>, to: usize) -> (s: usize)
    requires
        to <= l.len(),
    ensures
        s == run_start(l@, to as int),
{
    let mut s = to;
    while s > 0 && qname(l[s - 1])
        invariant
            s <= to <= l.len(),
            run_start(l@, to as int) == run_start(l@, s as int),
        decreases s,
    {
        s = s - 1;
    }
    s
}

/// Number of leading whitespace characters of `l[from..]`.
fn scan_leading_ws(l: &Vec<char>, from: usize) -> (n: usize)
    requires
        from <= l.len(),
    ensures
        n == leading_ws(l@.skip(from as int)),
        from + n <= l.len(),
{
    let ghost after = l@.skip(from as int);
    let mut n: usize = 0;
    proof {
        assert(after.skip(0) =~= after);
    }
    while from + n < l.len() && is_whitespace(l[from + n])
        invariant
            from + n <= l.len(),
            after == l@.skip(from as int),
            leading_ws(after) == n + leading_ws(after.skip(n as int)),
        decreases l.len() - from - n,
    {
        proof {
            let rest = after.skip(n as int);
            assert(rest[0] == l@[from + n]);
            assert(rest.drop_first() =~= after.skip(n + 1));
        }
        n = n + 1;
    }
    proof {
        let rest = after.skip(n as int);
        if from + n < l.len() {
            assert(rest[0] == l@[from + n]);
        } else {
            assert(rest.len() == 0);
        }
    }
    n
}

/// What `function_at_position` finds on line `line` at column `col` of
/// `text`: the name the cursor is on, when the next non-blank character after
/// it is `(`, and the arity of the call that this `(` opens, counted from its
/// byte offset in the whole text.
pub open spec fn function_at_spec(text: Seq<char>, line: u32, col: u32) -> Option<(Seq<char>, nat)> {
    let ls = lines(text);
    if line >= ls.len() {
        None
    } else {
        let l = ls[line as int];
        let c = col as int;
        if c >= l.len() || !is_qname_char(l[c]) {
            None
        } else {
            let s = run_start(l, c);
            let e = run_end(l, c);
            let after = l.skip(e);
            let w = leading_ws(after);
            if w >= after.len() || after[w as int] != '(' {
                None
            } else {
                let paren = line_start(text, line as nat) + e + w;
                Some((l.subrange(s, e), arity_at(encode_utf8(text), byte_len(text.take(paren)))))
            }
        }
    }
}

/// The function name under the cursor and the arity of the call it starts,
/// when the cursor is on a name followed by `(`.
pub fn function_at_position(text: &str, line: u32, col: u32) -> (r: Option<(String, usize)>)
    ensures
        match function_at_spec(text@, line, col) {
            None => r is None,
            Some((name, arity)) => r matches Some((n, a)) && n@ == name && a == arity,
        },
{
    // The byte length of the text fits in a `usize`.
    let _ = str_byte_len(text);
    let v = chars_of(text);
    let span = line_span(&v, line as usize);
    let (start, end) = match span {
        None => return None,
        Some(x) => x,
    };
    let l = slice_chars(&v, start, end);
    let c = col as usize;
    if c >= l.len() {
        return None;
    }
    if !qname(l[c]) {
        return None;
    }
    let s = scan_run_start(&l, c);
    let e = scan_run_end(&l, c);
    proof {
        lemma_run_start_range(l@, c as int);
        lemma_run_end_range(l@, c as int);
    }
    let name = string_from_chars(&l, s, e);
    let w = scan_leading_ws(&l, e);
    if e + w >= l.len() || l[e + w] != '(' {
        proof {
            if e + w < l.len() {
                assert(l@.skip(e as int)[w as int] == l@[e + w]);
            }
        }
        return None;
    }
    proof {
        assert(l@.skip(e as int)[w as int] == l@[e + w]);
    }
    // The bracket's index in the whole text, and its byte offset there.
    let paren = start + e + w;
    proof {
        lemma_byte_len_subrange(v@, 0, paren as int);
        assert(v@.subrange(0, paren as int) =~= v@.take(paren as int));
        lemma_byte_len_encode(text@);
    }
    let paren_byte = line_bytes(&v, 0, paren);
    let arity = count_arity(text.as_bytes(), paren_byte);
    Some((name, arity))
}

// ---------------------------------------------------------------------------
// Extent of a token
// ---------------------------------------------------------------------------

/// Whether `token_end` is defined for these arguments: the column lies within
/// the line, or, when the line does not exist, one past it is a `u32`.
pub open spec fn token_end_defined(text: Seq<char>, line: u32, col: u32) -> bool {
    let ls = lines(text);
    if line < ls.len() {
        col <= ls[line as int].len()
    } else {
        col < u32::MAX
    }
}

/// Column just past the token that starts at `col` on line `line` (at least
/// one past `col`); `col + 1` when there is no such line.
pub open spec fn token_end_spec(text: Seq<char>, line: u32, col: u32) -> u32 {
    let ls = lines(text);
    if line >= ls.len() {
        (col + 1) as u32
    } else {
        let n = run_end(ls[line as int], col as int) - col;
        (col + if n >= 1 { n } else { 1 }) as u32
    }
}

/// The column just past the token that starts at `(line, col)`.
pub fn token_end(text: &str, line: u32, col: u32) -> (r: u32)
    requires
        token_end_defined(text@, line, col),
    ensures
        r == token_end_spec(text@, line, col),
{
    // The byte length of the text fits in a `usize`.
    let _ = str_byte_len(text);
    let v = chars_of(text);
    let span = line_span(&v, line as usize);
    match span {
        None => col + 1,
        Some((start, end)) => {
            let l = slice_chars(&v, start, end);
            let c = col as usize;
            let e = scan_run_end(&l, c);
            proof {
                lemma_run_end_range(l@, c as int);
            }
            let n = e - c;
            let m = if n >= 1 { n } else { 1 };
            let sum: u64 = c as u64 + m as u64;
            #[verifier::truncate]
            (sum as u32)
        },
    }
}

/// Whether `token_end` may be called on these arguments.
pub fn token_end_in_range(text: &str, line: u32, col: u32) -> (r: bool)
    ensures
        r == token_end_defined(text@, line, col),
{
    // The byte length of the text fits in a `usize`.
    let _ = str_byte_len(text);
    let v = chars_of(text);
    match line_span(&v, line as usize) {
        None => col < u32::MAX,
        Some((start, end)) => (col as usize) <= end - start,
    }
}

} // verus!

verus! {

proof fn lemma_run_end_all_name(l: Seq<char>, i: int)
    requires
        0 <= i <= l.len(),
    ensures
        forall|j: int| i <= j < run_end(l, i) ==> is_qname_char(#[trigger] l[j]),
        run_end(l, i) < l.len() ==> !is_qname_char(l[run_end(l, i)]),
    decreases l.len() - i,
{
    if i < l.len() && is_qname_char(l[i]) {
        lemma_run_end_all_name(l, i + 1);
    }
}

proof fn lemma_run_start_all_name(l: Seq<char>, i: int)
    requires
        0 <= i <= l.len(),
    ensures
        forall|j: int| run_start(l, i) <= j < i ==> is_qname_char(#[trigger] l[j]),
        run_start(l, i) > 0 ==> !is_qname_char(l[run_start(l, i) - 1]),
    decreases i,
{
    if i > 0 && is_qname_char(l[i - 1]) {
        lemma_run_start_all_name(l, i - 1);
    }
}

/// The name found under the cursor is a whole token: it is not empty, covers
/// the cursor's column, consists of name characters only, and is bounded on
/// both sides by the line's ends or by other characters.
pub proof fn law_function_name_is_token(text: Seq<char>, line: u32, col: u32)
    requires
        function_at_spec(text, line, col) is Some,
    ensures
        ({
            let l = lines(text)[line as int];
            let s = run_start(l, col as int);
            let e = run_end(l, col as int);
            &&& (function_at_spec(text, line, col)->0).0 == l.subrange(s, e)
            &&& 0 <= s <= col < e <= l.len()
            &&& forall|j: int| s <= j < e ==> is_qname_char(#[trigger] l[j])
            &&& s > 0 ==> !is_qname_char(l[s - 1])
            &&& e < l.len() ==> !is_qname_char(l[e])
        }),
{
    let l = lines(text)[line as int];
    let c = col as int;
    lemma_run_start_range(l, c);
    lemma_run_end_range(l, c);
    lemma_run_start_all_name(l, c);
    lemma_run_end_all_name(l, c);
    assert(run_end(l, c) > c);
}

} // verus!

verus! {

/// A diagnostic never covers an empty range: the token end lies past the
/// column it starts at (for lines shorter than `u32::MAX` characters).
pub proof fn law_token_end_past_column(text: Seq<char>, line: u32, col: u32)
    requires
        token_end_defined(text, line, col),
        line < lines(text).len() ==> lines(text)[line as int].len() < u32::MAX,
    ensures
        token_end_spec(text, line, col) > col,
{
    let ls = lines(text);
    if line < ls.len() {
        lemma_run_end_range(ls[line as int], col as int);
    }
}

} // verus!

verus! {

proof fn lemma_run_end_same_run(l: Seq<char>, a: int, b: int)
    requires
        0 <= a <= b <= l.len(),
        forall|j: int| a <= j < b ==> is_qname_char(#[trigger] l[j]),
    ensures
        run_end(l, a) == run_end(l, b),
    decreases b - a,
{
    if a < b {
        lemma_run_end_same_run(l, a + 1, b);
    }
}

proof fn lemma_run_start_same_run(l: Seq<char>, a: int, b: int)
    requires
        0 <= a <= b <= l.len(),
        forall|j: int| a <= j < b ==> is_qname_char(#[trigger] l[j]),
    ensures
        run_start(l, a) == run_start(l, b),
    decreases b - a,
{
    if a < b {
        lemma_run_start_same_run(l, a, b - 1);
    }
}

/// A cursor anywhere in one name finds the same function: two columns of a
/// line with only name characters from one to the other give the same result.
pub proof fn law_same_name_same_function(text: Seq<char>, line: u32, c1: u32, c2: u32)
    requires
        line < lines(text).len(),
        c1 <= c2 < lines(text)[line as int].len(),
        forall|j: int| c1 <= j <= c2 ==> is_qname_char(#[trigger] lines(text)[line as int][j]),
    ensures
        function_at_spec(text, line, c1) == function_at_spec(text, line, c2),
{
    let l = lines(text)[line as int];
    assert(is_qname_char(l[c1 as int]));
    assert(is_qname_char(l[c2 as int]));
    lemma_run_start_same_run(l, c1 as int, c2 as int);
    lemma_run_end_same_run(l, c1 as int, c2 as int);
}

/// Index where the scan of an argument list from `i` at `depth` stops: the
/// list's closing bracket, or the end of the bytes when the list stays open.
pub open spec fn list_end(bytes: Seq<u8>, i: nat, depth: nat) -> nat
    decreases bytes.len() - i,
{
    if i >= bytes.len() {
        bytes.len()
    } else if bytes[i as int] == 0x28u8 {
        list_end(bytes, i + 1, depth + 1)
    } else if bytes[i as int] == 0x29u8 {
        if depth <= 1 {
            i
        } else {
            list_end(bytes, i + 1, (depth - 1) as nat)
        }
    } else {
        list_end(bytes, i + 1, depth)
    }
}

proof fn lemma_list_end_from(b: Seq<u8>, i: nat, depth: nat)
    requires
        i <= b.len(),
    ensures
        i <= list_end(b, i, depth) <= b.len(),
    decreases b.len() - i,
{
    if i < b.len() {
        if b[i as int] == 0x28u8 {
            lemma_list_end_from(b, i + 1, depth + 1);
        } else if b[i as int] == 0x29u8 {
            if depth > 1 {
                lemma_list_end_from(b, i + 1, (depth - 1) as nat);
            }
        } else {
            lemma_list_end_from(b, i + 1, depth);
        }
    }
}

proof fn lemma_scan_reads_to_list_end(
    b: Seq<u8>,
    i: nat,
    t: Seq<u8>,
    j: nat,
    depth: nat,
    commas: nat,
    content: bool,
)
    requires
        list_end(b, i, depth) < b.len(),
        j + (list_end(b, i, depth) - i) < t.len(),
        t.subrange(j as int, j + (list_end(b, i, depth) - i) + 1) == b.subrange(
            i as int,
            list_end(b, i, depth) + 1 as int,
        ),
    ensures
        arity_scan(t, j, depth, commas, content) == arity_scan(b, i, depth, commas, content),
    decreases b.len() - i,
{
    let e = list_end(b, i, depth);
    assert(i < b.len());
    lemma_list_end_from(b, i, depth);
    let ts = t.subrange(j as int, j + (e - i) + 1);
    let bs = b.subrange(i as int, e + 1 as int);
    assert(t[j as int] == ts[0]);
    assert(b[i as int] == bs[0]);
    let x = b[i as int];
    if x == 0x29u8 && depth <= 1 {
    } else {
        let d2: nat = if x == 0x28u8 {
            depth + 1
        } else if x == 0x29u8 {
            (depth - 1) as nat
        } else {
            depth
        };
        assert(list_end(b, i + 1, d2) == e);
        assert(t.subrange(j + 1 as int, (j + 1) + (e - (i + 1)) + 1) =~= ts.subrange(1, ts.len() as int));
        assert(b.subrange(i + 1 as int, e + 1 as int) =~= bs.subrange(1, bs.len() as int));
        let c2 = if x == 0x2cu8 && depth == 1 { commas + 1 } else { commas };
        let ct2 = if x == 0x28u8 {
            content || depth == 1
        } else if x == 0x29u8 {
            content
        } else if x == 0x2cu8 && depth == 1 {
            true
        } else if is_blank_byte(x) {
            content
        } else if depth == 1 {
            true
        } else {
            content
        };
        lemma_scan_reads_to_list_end(b, i + 1, t, j + 1, d2, c2, ct2);
    }
}

/// Only the bytes from a call's `(` to its matching `)` decide its arity:
/// bytes that hold the same list at another offset give the same count.
pub proof fn law_arity_reads_only_the_list(b: Seq<u8>, off: nat, t: Seq<u8>, off2: nat)
    requires
        off < b.len(),
        b[off as int] == 0x28u8,
        list_end(b, off + 1, 1) < b.len(),
        off2 + (list_end(b, off + 1, 1) - off) < t.len(),
        t.subrange(off2 as int, off2 + (list_end(b, off + 1, 1) - off) + 1) == b.subrange(
            off as int,
            list_end(b, off + 1, 1) + 1 as int,
        ),
    ensures
        arity_at(t, off2) == arity_at(b, off),
{
    let e = list_end(b, off + 1, 1);
    lemma_list_end_from(b, off + 1, 1);
    let ts = t.subrange(off2 as int, off2 + (e - off) + 1);
    let bs = b.subrange(off as int, e + 1 as int);
    assert(t[off2 as int] == ts[0]);
    assert(b[off as int] == bs[0]);
    assert(t.subrange(off2 + 1 as int, (off2 + 1) + (e - (off + 1)) + 1) =~= ts.subrange(1, ts.len() as int));
    assert(b.subrange(off + 1 as int, e + 1 as int) =~= bs.subrange(1, bs.len() as int));
    lemma_scan_reads_to_list_end(b, off + 1, t, off2 + 1, 1, 0, false);
}

proof fn lemma_scan_after_prefix(p: Seq<u8>, b: Seq<u8>, i: nat, depth: nat, commas: nat, content: bool)
    requires
        i <= b.len(),
    ensures
        arity_scan(p + b, i + p.len(), depth, commas, content) == arity_scan(b, i, depth, commas, content),
    decreases b.len() - i,
{
    if i < b.len() {
        assert((p + b)[i + p.len() as int] == b[i as int]);
        let x = b[i as int];
        let d2: nat = if x == 0x28u8 {
            depth + 1
        } else if x == 0x29u8 && depth > 1 {
            (depth - 1) as nat
        } else {
            depth
        };
        let c2 = if x == 0x2cu8 && depth == 1 { commas + 1 } else { commas };
        let ct2 = if x == 0x28u8 {
            content || depth == 1
        } else if x == 0x29u8 {
            content
        } else if x == 0x2cu8 && depth == 1 {
            true
        } else if is_blank_byte(x) {
            content
        } else if depth == 1 {
            true
        } else {
            content
        };
        lemma_scan_after_prefix(p, b, i + 1, d2, c2, ct2);
        assert(i + 1 + p.len() == (i + p.len()) + 1);
    }
}

/// What precedes a call does not change its arity: bytes put in front of the
/// text, with the offset moved past them, give the same count.
pub proof fn law_arity_ignores_what_precedes(p: Seq<u8>, b: Seq<u8>, off: nat)
    ensures
        arity_at(p + b, off + p.len()) == arity_at(b, off),
{
    if off < b.len() {
        assert((p + b)[off + p.len() as int] == b[off as int]);
        if b[off as int] == 0x28u8 {
            lemma_scan_after_prefix(p, b, off + 1, 1, 0, false);
            assert(off + 1 + p.len() == (off + p.len()) + 1);
        }
    }
}

} // verus!

verus! {

/// The arity is counted from the `(` that follows the name: the byte at the
/// offset where the count starts is that bracket.
pub proof fn law_count_starts_at_the_bracket(text: Seq<char>, line: u32, col: u32)
    requires
        function_at_spec(text, line, col) is Some,
    ensures
        ({
            let l = lines(text)[line as int];
            let e = run_end(l, col as int);
            let paren = line_start(text, line as nat) + e + leading_ws(l.skip(e));
            let b = byte_len(text.take(paren));
            &&& b < encode_utf8(text).len()
            &&& encode_utf8(text)[b as int] == 0x28u8
        }),
{
    let l = lines(text)[line as int];
    let e = run_end(l, col as int);
    let w = leading_ws(l.skip(e));
    lemma_run_end_range(l, col as int);
    lemma_line_in_text(text, line as nat);
    assert(l.skip(e)[w as int] == l[e + w]);
    let paren = line_start(text, line as nat) + e + w;
    assert(text[paren] == '(');
    lemma_encoding_at(text, paren);
    assert((0x28u32 & 0x7Fu32) == 0x28u32) by (bit_vector);
    assert(('(' as u32) == 0x28u32);
    assert(encode_scalar('(' as u32) == seq![0x28u8]);
}

} // verus!

verus! {

/// Alphanumeric characters and `-`, `_`, `.`, `:`: what a qualified name is
/// made of.
pub open spec fn in_name(c: char) -> bool {
    unicode_alphanumeric(c) || c == '-' || c == '_' || c == '.' || c == ':'
}

/// Name characters are exactly the alphanumerics and `-`, `_`, `.`, `:`.
pub proof fn law_name_characters(c: char)
    ensures
        unicode_alphanumeric(c) ==> is_qname_char(c),
        is_qname_char('-') && is_qname_char('_') && is_qname_char('.') && is_qname_char(':'),
        !unicode_alphanumeric(c) && c != '-' && c != '_' && c != '.' && c != ':' ==> !is_qname_char(c),
{
}

proof fn lemma_run_ends_at_segment(l: Seq<char>, s: int, e: int, col: int)
    requires
        0 <= s <= col < e <= l.len(),
        forall|j: int| s <= j < e ==> in_name(#[trigger] l[j]),
        s == 0 || !in_name(l[s - 1]),
        e == l.len() || !in_name(l[e]),
    ensures
        run_start(l, col) == s,
        run_end(l, col) == e,
{
    assert forall|j: int| s <= j < e implies is_qname_char(#[trigger] l[j]) by {
        assert(in_name(l[j]));
    }
    lemma_run_start_same_run(l, s, col);
    lemma_run_end_same_run(l, col, e);
    if s > 0 {
        assert(!in_name(l[s - 1]));
    }
    if e < l.len() {
        assert(!in_name(l[e]));
    }
}

/// A cursor on a name (a stretch of alphanumerics, `-`, `_`, `.` and `:`
/// bounded by other characters or the line's ends) covers the whole name:
/// the token ends where the name does, a function found there has that
/// name, and one is found when `(` follows the name directly.
pub proof fn law_whole_name_under_cursor(text: Seq<char>, line: u32, col: u32, s: int, e: int)
    requires
        line < lines(text).len(),
        0 <= s <= col < e <= lines(text)[line as int].len(),
        e <= u32::MAX,
        forall|j: int| s <= j < e ==> in_name(#[trigger] lines(text)[line as int][j]),
        s == 0 || !in_name(lines(text)[line as int][s - 1]),
        e == lines(text)[line as int].len() || !in_name(lines(text)[line as int][e]),
    ensures
        token_end_spec(text, line, col) == e,
        function_at_spec(text, line, col) is Some ==> (function_at_spec(text, line, col)->0).0
            == lines(text)[line as int].subrange(s, e),
        e < lines(text)[line as int].len() && lines(text)[line as int][e] == '(' ==> function_at_spec(
            text,
            line,
            col,
        ) is Some,
{
    let l = lines(text)[line as int];
    lemma_run_ends_at_segment(l, s, e, col as int);
    assert(is_qname_char(l[col as int])) by {
        assert(in_name(l[col as int]));
    }
    if e < l.len() && l[e] == '(' {
        let after = l.skip(e);
        assert(after[0] == '(');
        assert(!unicode_whitespace('('));
        assert(leading_ws(after) == 0);
    }
}

} // verus!

verus! {

/// On a character that is no name character, the token is that one
/// character: its end is one past the column.
pub proof fn law_token_end_off_name(text: Seq<char>, line: u32, col: u32)
    requires
        line < lines(text).len(),
        col < lines(text)[line as int].len(),
        col < u32::MAX,
        !in_name(lines(text)[line as int][col as int]),
    ensures
        token_end_spec(text, line, col) == col + 1,
{
    assert(!is_qname_char(lines(text)[line as int][col as int]));
}

} // verus!
