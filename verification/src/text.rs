//! Character-level helpers shared by the rest of the library: the UTF-8 width
//! of text, line splitting as `str::lines` does it, and decimal numbers.
use vstd::prelude::*;
use vstd::utf8::*;

verus! {

// ---------------------------------------------------------------------------
// UTF-8 widths
// ---------------------------------------------------------------------------

/// Number of bytes of the UTF-8 encoding of `c`.
pub open spec fn char_width(c: char) -> nat {
    encode_scalar(c as u32).len()
}

/// Number of bytes of the UTF-8 encoding of `s`.
pub open spec fn byte_len(s: Seq<char>) -> nat
    decreases s.len(),
{
    if s.len() == 0 {
        0
    } else {
        char_width(s[0]) + byte_len(s.drop_first())
    }
}

/// The width of a character is between one and four bytes.
pub proof fn lemma_char_width_range(c: char)
    ensures
        1 <= char_width(c) <= 4,
{
    char_is_scalar(c);
}

/// `byte_len` is the length of the UTF-8 encoding.
pub proof fn lemma_byte_len_encode(s: Seq<char>)
    ensures
        byte_len(s) == encode_utf8(s).len(),
    decreases s.len(),
{
    if s.len() > 0 {
        lemma_byte_len_encode(s.drop_first());
    }
}

/// `byte_len` adds up over concatenation.
pub proof fn lemma_byte_len_concat(a: Seq<char>, b: Seq<char>)
    ensures
        byte_len(a + b) == byte_len(a) + byte_len(b),
    decreases a.len(),
{
    if a.len() > 0 {
        assert((a + b).drop_first() =~= a.drop_first() + b);
        lemma_byte_len_concat(a.drop_first(), b);
    } else {
        assert(a + b =~= b);
    }
}

/// Splitting a sequence at `i` splits its byte length.
pub proof fn lemma_byte_len_split(s: Seq<char>, i: int)
    requires
        0 <= i <= s.len(),
    ensures
        byte_len(s) == byte_len(s.take(i)) + byte_len(s.skip(i)),
        byte_len(s.take(i)) <= byte_len(s),
{
    assert(s =~= s.take(i) + s.skip(i));
    lemma_byte_len_concat(s.take(i), s.skip(i));
}

/// A slice `v[a..b]` adds its bytes to those of `v[..a]`.
pub proof fn lemma_byte_len_subrange(v: Seq<char>, a: int, b: int)
    requires
        0 <= a <= b <= v.len(),
    ensures
        byte_len(v.take(b)) == byte_len(v.take(a)) + byte_len(v.subrange(a, b)),
        byte_len(v.take(b)) <= byte_len(v),
        byte_len(v.subrange(a, b)) <= byte_len(v),
{
    lemma_byte_len_split(v, b);
    lemma_byte_len_split(v.take(b), a);
    assert(v.take(b).take(a) =~= v.take(a));
    assert(v.take(b).skip(a) =~= v.subrange(a, b));
}

/// Byte length of a prefix one character longer.
pub proof fn lemma_byte_len_take_next(s: Seq<char>, i: int)
    requires
        0 <= i < s.len(),
    ensures
        byte_len(s.take(i + 1)) == byte_len(s.take(i)) + char_width(s[i]),
{
    reveal_with_fuel(byte_len, 2);
    assert(s.take(i + 1) =~= s.take(i) + seq![s[i]]);
    lemma_byte_len_concat(s.take(i), seq![s[i]]);
    assert(seq![s[i]].drop_first() =~= Seq::<char>::empty());
}

/// A sequence has at least as many bytes as characters.
pub proof fn lemma_byte_len_at_least_len(s: Seq<char>)
    ensures
        s.len() <= byte_len(s),
    decreases s.len(),
{
    if s.len() > 0 {
        lemma_char_width_range(s[0]);
        lemma_byte_len_at_least_len(s.drop_first());
    }
}

/// The UTF-8 width of `c`, as `char::len_utf8` reports it.
pub fn utf8_width(c: char) -> (w: usize)
    ensures
        w == char_width(c),
        1 <= w <= 4,
{
    proof {
        char_is_scalar(c);
    }
    let v = c as u32;
    if v <= 0x7f {
        1
    } else if v <= 0x7ff {
        2
    } else if v <= 0xffff {
        3
    } else {
        4
    }
}

// ---------------------------------------------------------------------------
// Characters and strings
// ---------------------------------------------------------------------------

/// The characters of `s`, in order.
pub fn chars_of(s: &str) -> (r: Vec<char>)
    ensures
        r@ == s@,
{
    let mut out: Vec<char> = Vec::new();
    for c in it: s.chars()
        invariant
            out@ == it.seq().take(it.index() as int),
            it.seq() == s@,
    {
        out.push(c);
    }
    out
}

/// Appends one character to a string (`String::push`).
#[verifier::external_body]
pub(crate) fn push_char(s: &mut String, c: char)
    ensures
        final(s)@ == old(s)@.push(c),
{
    s.push(c);
}

/// A string holding the characters of `v[from..to]`.
pub fn string_from_chars(v: &Vec<char>, from: usize, to: usize) -> (r: String)
    requires
        from <= to <= v.len(),
    ensures
        r@ == v@.subrange(from as int, to as int),
{
    let mut out = String::new();
    let mut i = from;
    while i < to
        invariant
            from <= i <= to <= v.len(),
            out@ == v@.subrange(from as int, i as int),
        decreases to - i,
    {
        push_char(&mut out, v[i]);
        assert(v@.subrange(from as int, i + 1) =~= v@.subrange(from as int, i as int).push(v@[i as int]));
        i += 1;
    }
    out
}

/// The characters `v[from..to]` as a vector of their own.
pub fn slice_chars(v: &Vec<char>, from: usize, to: usize) -> (r: Vec<char>)
    requires
        from <= to <= v.len(),
    ensures
        r@ == v@.subrange(from as int, to as int),
{
    let mut out: Vec<char> = Vec::new();
    let mut i = from;
    while i < to
        invariant
            from <= i <= to <= v.len(),
            out@ == v@.subrange(from as int, i as int),
        decreases to - i,
    {
        out.push(v[i]);
        assert(v@.subrange(from as int, i + 1) =~= v@.subrange(from as int, i as int).push(v@[i as int]));
        i += 1;
    }
    out
}

/// Byte length of the UTF-8 text `s`, with its bound.
pub fn str_byte_len(s: &str) -> (n: usize)
    ensures
        n == byte_len(s@),
        byte_len(s@) <= usize::MAX,
{
    let b = s.as_bytes();
    proof {
        lemma_byte_len_encode(s@);
    }
    b.len()
}

/// A new string made of `a` followed by `b`.
pub fn concat2(a: &str, b: &str) -> (r: String)
    ensures
        r@ == a@ + b@,
{
    let mut out = String::from_str(a);
    out.append(b);
    out
}

/// A new string made of `a`, `b` and `c`.
pub fn concat3(a: &str, b: &str, c: &str) -> (r: String)
    ensures
        r@ == a@ + b@ + c@,
{
    let mut out = String::from_str(a);
    out.append(b);
    out.append(c);
    out
}

/// Whether two strings hold the same characters.
pub fn str_eq(a: &str, b: &str) -> (r: bool)
    ensures
        r == (a@ == b@),
{
    let x = chars_of(a);
    let y = chars_of(b);
    if x.len() != y.len() {
        return false;
    }
    let mut i: usize = 0;
    while i < x.len()
        invariant
            x@ == a@,
            y@ == b@,
            x.len() == y.len(),
            i <= x.len(),
            forall|j: int| 0 <= j < i ==> x@[j] == y@[j],
        decreases x.len() - i,
    {
        if x[i] != y[i] {
            return false;
        }
        i += 1;
    }
    assert(x@ =~= y@);
    true
}

// ---------------------------------------------------------------------------
// Unicode character classes, as `char`'s methods report them
// ---------------------------------------------------------------------------

/// Whether `c` is alphabetic or numeric in the sense of Unicode, as
/// `char::is_alphanumeric` reports it.
pub uninterp spec fn unicode_alphanumeric(c: char) -> bool;

/// `char::is_alphanumeric`; the result is named `unicode_alphanumeric`.
#[verifier::external_body]
pub(crate) fn is_alphanumeric(c: char) -> (r: bool)
    ensures
        r == unicode_alphanumeric(c),
{
    c.is_alphanumeric()
}

/// Whether `c` has the Unicode `White_Space` property (the code points that
/// `char::is_whitespace` accepts).
pub open spec fn unicode_whitespace(c: char) -> bool {
    let u = c as u32;
    ||| 0x09 <= u <= 0x0d
    ||| u == 0x20
    ||| u == 0x85
    ||| u == 0xa0
    ||| u == 0x1680
    ||| 0x2000 <= u <= 0x200a
    ||| u == 0x2028
    ||| u == 0x2029
    ||| u == 0x202f
    ||| u == 0x205f
    ||| u == 0x3000
}

/// Whether `c` is a whitespace character in the sense of Unicode.
pub fn is_whitespace(c: char) -> (r: bool)
    ensures
        r == unicode_whitespace(c),
{
    let u = c as u32;
    (0x09 <= u && u <= 0x0d) || u == 0x20 || u == 0x85 || u == 0xa0 || u == 0x1680
        || (0x2000 <= u && u <= 0x200a) || u == 0x2028 || u == 0x2029 || u == 0x202f
        || u == 0x205f || u == 0x3000
}

// ---------------------------------------------------------------------------
// Lines, as `str::lines` yields them
// ---------------------------------------------------------------------------

/// Index of the first occurrence of `c` in `s`, or `s.len()` when there is none.
pub open spec fn index_of(s: Seq<char>, c: char) -> nat
    decreases s.len(),
{
    if s.len() == 0 {
        0
    } else if s[0] == c {
        0
    } else {
        1 + index_of(s.drop_first(), c)
    }
}

/// `l` without one trailing carriage return.
pub open spec fn strip_cr(l: Seq<char>) -> Seq<char> {
    if l.len() > 0 && l.last() == '\r' {
        l.drop_last()
    } else {
        l
    }
}

/// The lines of `s`: pieces ended by `'\n'` (a `'\r'` just before it is
/// dropped); a last piece without `'\n'` is a line too when it is not empty.
pub open spec fn lines(s: Seq<char>) -> Seq<Seq<char>>
    decreases s.len(),
{
    if s.len() == 0 {
        Seq::empty()
    } else {
        let k = index_of(s, '\n');
        if k < s.len() {
            seq![strip_cr(s.take(k as int))] + lines(s.skip(k + 1 as int))
        } else {
            seq![s]
        }
    }
}

/// Index of the first character of line `n` of `s`: just past the `n`-th
/// `'\n'` (the length of `s` when there are fewer).
pub open spec fn line_start(s: Seq<char>, n: nat) -> nat
    decreases n,
{
    if n == 0 {
        0
    } else {
        let k = index_of(s, '\n');
        if k < s.len() {
            k + 1 + line_start(s.skip(k + 1 as int), (n - 1) as nat)
        } else {
            s.len()
        }
    }
}

/// Line `n` of `s` sits in `s` from `line_start(s, n)` on.
pub proof fn lemma_line_in_text(s: Seq<char>, n: nat)
    requires
        n < lines(s).len(),
    ensures
        line_start(s, n) + lines(s)[n as int].len() <= s.len(),
        forall|j: int|
            0 <= j < lines(s)[n as int].len() ==> #[trigger] lines(s)[n as int][j] == s[line_start(s, n) + j],
    decreases n,
{
    lemma_index_of(s, '\n');
    let k = index_of(s, '\n');
    if k < s.len() {
        let rest = s.skip(k + 1 as int);
        assert(lines(s) == seq![strip_cr(s.take(k as int))] + lines(rest));
        if n > 0 {
            lemma_line_in_text(rest, (n - 1) as nat);
            assert(lines(s)[n as int] == lines(rest)[n - 1]);
            assert forall|j: int| 0 <= j < lines(s)[n as int].len() implies #[trigger] lines(s)[n as int][j]
                == s[line_start(s, n) + j] by {
                assert(lines(rest)[n - 1][j] == rest[line_start(rest, (n - 1) as nat) + j]);
            }
        }
    }
}

/// The first byte of the encoding of `s[p]` stands at `byte_len(s.take(p))`.
pub proof fn lemma_encoding_at(s: Seq<char>, p: int)
    requires
        0 <= p < s.len(),
    ensures
        byte_len(s.take(p)) < encode_utf8(s).len(),
        encode_utf8(s)[byte_len(s.take(p)) as int] == encode_scalar(s[p] as u32)[0],
    decreases p,
{
    lemma_char_width_range(s[0]);
    lemma_byte_len_encode(s);
    lemma_byte_len_encode(s.drop_first());
    let head = encode_scalar(s[0] as u32);
    assert(encode_utf8(s) == head + encode_utf8(s.drop_first()));
    if p == 0 {
        assert(s.take(0) =~= Seq::<char>::empty());
    } else {
        lemma_encoding_at(s.drop_first(), p - 1);
        assert(s.take(p).drop_first() =~= s.drop_first().take(p - 1));
        assert(s.take(p)[0] == s[0]);
        assert(byte_len(s.take(p)) == char_width(s[0]) + byte_len(s.drop_first().take(p - 1)));
    }
}

pub proof fn lemma_index_of(s: Seq<char>, c: char)
    ensures
        index_of(s, c) <= s.len(),
        index_of(s, c) < s.len() ==> s[index_of(s, c) as int] == c,
        forall|j: int| 0 <= j < index_of(s, c) ==> s[j] != c,
    decreases s.len(),
{
    if s.len() > 0 && s[0] != c {
        lemma_index_of(s.drop_first(), c);
        assert forall|j: int| 0 <= j < index_of(s, c) implies s[j] != c by {
            if j > 0 {
                assert(s[j] == s.drop_first()[j - 1]);
            }
        }
    }
}

/// Scans forward from `from` for the next `c`.
pub fn next_index_of(v: &Vec<char>, from: usize, c: char) -> (k: usize)
    requires
        from <= v.len(),
    ensures
        k == from + index_of(v@.skip(from as int), c),
        k <= v.len(),
{
    let ghost rest = v@.skip(from as int);
    proof {
        lemma_index_of(rest, c);
    }
    let mut k = from;
    while k < v.len() && v[k] != c
        invariant
            from <= k <= v.len(),
            rest == v@.skip(from as int),
            forall|j: int| from <= j < k ==> v@[j] != c,
            index_of(rest, c) <= rest.len(),
            index_of(rest, c) < rest.len() ==> rest[index_of(rest, c) as int] == c,
            forall|j: int| 0 <= j < index_of(rest, c) ==> rest[j] != c,
        decreases v.len() - k,
    {
        k += 1;
    }
    proof {
        let i = index_of(rest, c) as int;
        if i < k - from {
            assert(rest[i] == v@[from + i]);
        }
        if k < v.len() {
            assert(rest[k - from] == v@[k as int]);
        }
    }
    k
}

/// Where line `n` of the text sits: `(start, end)` with the line being
/// `v[start..end]` and `start` the index of its first character in the text;
/// `None` when the text has at most `n` lines.
pub fn line_span(v: &Vec<char>, n: usize) -> (r: Option<(usize, usize)>)
    ensures
        match r {
            None => lines(v@).len() <= n,
            Some((start, end)) => {
                &&& n < lines(v@).len()
                &&& start <= end <= v.len()
                &&& v@.subrange(start as int, end as int) == lines(v@)[n as int]
                &&& start == line_start(v@, n as nat)
            },
        },
{
    let mut pos: usize = 0;
    let mut idx: usize = 0;
    proof {
        assert(v@.skip(0) =~= v@);
    }
    while pos < v.len()
        invariant
            pos <= v.len(),
            idx <= n,
            lines(v@).len() == idx + lines(v@.skip(pos as int)).len(),
            forall|j: int| 0 <= j < lines(v@.skip(pos as int)).len()
                ==> lines(v@)[idx + j] == #[trigger] lines(v@.skip(pos as int))[j],
            line_start(v@, n as nat) == pos + line_start(v@.skip(pos as int), (n - idx) as nat),
        decreases v.len() - pos,
    {
        let ghost rest = v@.skip(pos as int);
        let k = next_index_of(v, pos, '\n');
        proof {
            lemma_index_of(rest, '\n');
        }
        let mut end = k;
        if k > pos && v[k - 1] == '\r' && k < v.len() {
            end = k - 1;
        }
        if k < v.len() {
            proof {
                let kk = index_of(rest, '\n');
                assert(rest.skip(kk + 1 as int) =~= v@.skip(k + 1));
                assert(rest.take(kk as int) =~= v@.subrange(pos as int, k as int));
                assert(strip_cr(rest.take(kk as int)) =~= v@.subrange(pos as int, end as int));
                assert(lines(rest) == seq![strip_cr(rest.take(kk as int))] + lines(v@.skip(k + 1)));
            }
            if idx == n {
                proof {
                    assert(lines(rest)[0] == v@.subrange(pos as int, end as int));
                    assert(lines(v@)[idx + 0] == lines(rest)[0]);
                }
                return Some((pos, end));
            }
            proof {
                assert(lines(rest).drop_first() =~= lines(v@.skip(k + 1)));
                assert forall|j: int| 0 <= j < lines(v@.skip(k + 1)).len()
                    implies lines(v@)[(idx + 1) + j] == #[trigger] lines(v@.skip(k + 1))[j] by {
                    assert(lines(rest)[j + 1] == lines(v@.skip(k + 1))[j]);
                }
            }
            idx = idx + 1;
            pos = k + 1;
        } else {
            proof {
                assert(lines(rest) == seq![rest]);
                assert(rest =~= v@.subrange(pos as int, v.len() as int));
            }
            if idx == n {
                proof {
                    assert(lines(v@)[idx + 0] == lines(rest)[0]);
                }
                return Some((pos, v.len()));
            }
            proof {
                assert(lines(v@).len() == idx + 1);
            }
            return None;
        }
    }
    proof {
        assert(v@.skip(pos as int) =~= Seq::<char>::empty());
    }
    None
}

/// Byte length of `v[from..to]`.
pub fn line_bytes(v: &Vec<char>, from: usize, to: usize) -> (r: usize)
    requires
        from <= to <= v.len(),
        byte_len(v@) <= usize::MAX,
    ensures
        r == byte_len(v@.subrange(from as int, to as int)),
{
    let ghost seg = v@.subrange(from as int, to as int);
    proof {
        lemma_byte_len_split(v@, to as int);
        lemma_byte_len_split(v@.take(to as int), from as int);
        assert(v@.take(to as int).skip(from as int) =~= seg);
    }
    let mut total: usize = 0;
    let mut i = from;
    while i < to
        invariant
            from <= i <= to <= v.len(),
            seg == v@.subrange(from as int, to as int),
            byte_len(seg) <= byte_len(v@) <= usize::MAX,
            total == byte_len(seg.take(i - from)),
        decreases to - i,
    {
        proof {
            lemma_byte_len_take_next(seg, i - from);
            lemma_byte_len_split(seg, i - from + 1);
            assert(seg[i - from] == v@[i as int]);
        }
        total = total + utf8_width(v[i]);
        i += 1;
    }
    proof {
        assert(seg.take(to - from) =~= seg);
    }
    total
}

// ---------------------------------------------------------------------------
// Decimal numbers
// ---------------------------------------------------------------------------

/// Whether `c` is one of `'0'..='9'`.
pub open spec fn is_digit(c: char) -> bool {
    '0' <= c && c <= '9'
}

/// The value of the digit `c`.
pub open spec fn digit_value(c: char) -> nat {
    (c as u32 - '0' as u32) as nat
}

/// The number that the digits `d` write in base ten.
pub open spec fn digits_value(d: Seq<char>) -> nat
    decreases d.len(),
{
    if d.len() == 0 {
        0
    } else {
        10 * digits_value(d.drop_last()) + digit_value(d.last())
    }
}

/// Whether every character of `d` is a decimal digit.
pub open spec fn all_digits(d: Seq<char>) -> bool {
    forall|i: int| 0 <= i < d.len() ==> is_digit(#[trigger] d[i])
}

/// What `u32::from_str` gives for `s`: an optional `'+'`, then at least one
/// digit and nothing else, of a value that fits in a `u32`.
pub open spec fn parse_u32_spec(s: Seq<char>) -> Option<u32> {
    let d = if s.len() > 0 && s[0] == '+' {
        s.drop_first()
    } else {
        s
    };
    if d.len() == 0 || !all_digits(d) || digits_value(d) > u32::MAX {
        None
    } else {
        Some(digits_value(d) as u32)
    }
}

proof fn lemma_digits_value_grows(d: Seq<char>, i: int)
    requires
        0 <= i < d.len(),
    ensures
        digits_value(d.take(i + 1)) == 10 * digits_value(d.take(i)) + digit_value(d[i]),
        digits_value(d.take(i + 1)) >= digits_value(d.take(i)),
{
    assert(d.take(i + 1).drop_last() =~= d.take(i));
}

/// Parses `s[from..to]` as `u32::from_str` does.
pub fn parse_u32(s: &Vec<char>, from: usize, to: usize) -> (r: Option<u32>)
    requires
        from <= to <= s.len(),
    ensures
        r == parse_u32_spec(s@.subrange(from as int, to as int)),
{
    let ghost whole = s@.subrange(from as int, to as int);
    let mut start = from;
    if start < to && s[start] == '+' {
        start = start + 1;
    }
    let ghost d = s@.subrange(start as int, to as int);
    proof {
        assert(whole.len() > 0 ==> whole[0] == s@[from as int]);
        if from < to && s@[from as int] == '+' {
            assert(whole.drop_first() =~= d);
        } else {
            assert(whole =~= d);
        }
    }
    if start == to {
        return None;
    }
    let mut acc: u32 = 0;
    let mut over = false;
    let mut i = start;
    while i < to
        invariant
            start <= i <= to <= s.len(),
            d == s@.subrange(start as int, to as int),
            whole == s@.subrange(from as int, to as int),
            (if whole.len() > 0 && whole[0] == '+' { whole.drop_first() } else { whole }) == d,
            d.len() > 0,
            forall|j: int| 0 <= j < i - start ==> is_digit(#[trigger] d[j]),
            over <==> digits_value(d.take(i - start)) > u32::MAX,
            !over ==> acc == digits_value(d.take(i - start)),
        decreases to - i,
    {
        let c = s[i];
        if !('0' <= c && c <= '9') {
            proof {
                assert(d[i - start] == c);
            }
            return None;
        }
        proof {
            assert(d[i - start] == c);
            lemma_digits_value_grows(d, i - start);
        }
        if !over {
            let next: u64 = acc as u64 * 10 + (c as u32 - '0' as u32) as u64;
            if next > u32::MAX as u64 {
                over = true;
            } else {
                acc = next as u32;
            }
        }
        i += 1;
    }
    proof {
        assert(d.take(to - start) =~= d);
        assert(all_digits(d));
    }
    if over {
        None
    } else {
        Some(acc)
    }
}

/// The decimal digits of `n`, most significant first, with no leading zeros.
pub open spec fn decimal(n: nat) -> Seq<char>
    decreases n,
{
    if n < 10 {
        seq![digit_char(n)]
    } else {
        decimal(n / 10).push(digit_char(n % 10))
    }
}

/// The digit character for `k < 10`.
pub open spec fn digit_char(k: nat) -> char {
    if k == 0 {
        '0'
    } else if k == 1 {
        '1'
    } else if k == 2 {
        '2'
    } else if k == 3 {
        '3'
    } else if k == 4 {
        '4'
    } else if k == 5 {
        '5'
    } else if k == 6 {
        '6'
    } else if k == 7 {
        '7'
    } else if k == 8 {
        '8'
    } else {
        '9'
    }
}

/// Writes `n` in decimal, as `usize`'s `Display` does.
pub fn format_decimal(n: usize) -> (r: String)
    ensures
        r@ == decimal(n as nat),
    decreases n,
{
    let d = (n % 10) as u32;
    let c = char_from_digit(d);
    if n < 10 {
        let mut out = String::new();
        push_char(&mut out, c);
        assert(out@ =~= decimal(n as nat));
        out
    } else {
        let mut out = format_decimal(n / 10);
        push_char(&mut out, c);
        out
    }
}

fn char_from_digit(d: u32) -> (c: char)
    requires
        d < 10,
    ensures
        c == digit_char(d as nat),
{
    if d == 0 {
        '0'
    } else if d == 1 {
        '1'
    } else if d == 2 {
        '2'
    } else if d == 3 {
        '3'
    } else if d == 4 {
        '4'
    } else if d == 5 {
        '5'
    } else if d == 6 {
        '6'
    } else if d == 7 {
        '7'
    } else if d == 8 {
        '8'
    } else {
        '9'
    }
}

proof fn lemma_digit_char(k: nat)
    requires
        k < 10,
    ensures
        is_digit(digit_char(k)),
        digit_value(digit_char(k)) == k,
{
    if k == 0 {
    } else if k == 1 {
    } else if k == 2 {
    } else if k == 3 {
    } else if k == 4 {
    } else if k == 5 {
    } else if k == 6 {
    } else if k == 7 {
    } else if k == 8 {
    } else {
    }
}

/// Reading back the decimal digits of a number gives the number.
pub proof fn lemma_decimal_roundtrip(n: nat)
    ensures
        all_digits(decimal(n)),
        decimal(n).len() > 0,
        digits_value(decimal(n)) == n,
    decreases n,
{
    if n < 10 {
        lemma_digit_char(n);
        assert(decimal(n).drop_last() =~= Seq::<char>::empty());
        assert(digits_value(Seq::<char>::empty()) == 0);
    } else {
        lemma_digit_char(n % 10);
        lemma_decimal_roundtrip(n / 10);
        assert(n == 10 * (n / 10) + n % 10) by (nonlinear_arith);
        let d = decimal(n);
        assert(d.drop_last() =~= decimal(n / 10));
        assert forall|i: int| 0 <= i < d.len() implies is_digit(#[trigger] d[i]) by {
            if i < d.len() - 1 {
                assert(d[i] == decimal(n / 10)[i]);
            }
        }
    }
}

} // verus!

verus! {

/// Reading back the decimal writing of a `u32` with `u32::from_str` gives the
/// number: what `format_decimal` writes, `parse_u32` reads back.
pub proof fn law_parse_reads_decimal(n: u32)
    ensures
        parse_u32_spec(decimal(n as nat)) == Some(n),
{
    lemma_decimal_roundtrip(n as nat);
    let d = decimal(n as nat);
    assert(is_digit(d[0]));
}

} // verus!
