//! What the document says of functions: the modules it imports, and the line
//! on which it declares a function. Both are found with regular expressions.
use vstd::prelude::*;
use vstd::utf8::encode_utf8;
use crate::text::{byte_len, concat3, lemma_byte_len_encode};

verus! {

// ---------------------------------------------------------------------------
// Regular expressions
// ---------------------------------------------------------------------------

/// The capture groups of each successive non-overlapping match of the regular
/// expression `pattern` in `text`, group 0 first, as `Regex::captures_iter`
/// yields them; `None` when `pattern` is not a valid regular expression.
pub uninterp spec fn regex_all_captures(pattern: Seq<char>, text: Seq<char>) -> Option<Seq<Seq<Option<Seq<char>>>>>;

/// Byte offset of the start of the first match of `pattern` in `text`, as
/// `Regex::find` reports it; `None` when `pattern` is not valid.
pub uninterp spec fn regex_first_match(pattern: Seq<char>, text: Seq<char>) -> Option<Option<nat>>;

/// `s` with every regular-expression meta character escaped, as
/// `regex::escape` writes it.
pub uninterp spec fn regex_escaped(s: Seq<char>) -> Seq<char>;

/// The texts of captured groups.
pub open spec fn captures_view(r: Option<Vec<Vec<Option<String>>>>) -> Option<Seq<Seq<Option<Seq<char>>>>> {
    match r {
        None => None,
        Some(ms) => Some(
            ms@.map_values(
                |m: Vec<Option<String>>|
                    m@.map_values(
                        |g: Option<String>|
                            match g {
                                Some(s) => Some(s@),
                                None => None,
                            },
                    ),
            ),
        ),
    }
}

/// `Regex::new(pattern)` followed by `captures_iter(text)`; the result is named
/// `regex_all_captures`.
#[verifier::external_body]
fn regex_captures(pattern: &str, text: &str) -> (r: Option<Vec<Vec<Option<String>>>>)
    ensures
        captures_view(r) == regex_all_captures(pattern@, text@),
{
    let re = regex::Regex::new(pattern).ok()?;
    Some(
        re.captures_iter(text).map(
            |c| c.iter().map(|g| g.map(|m| m.as_str().to_string())).collect(),
        ).collect(),
    )
}

/// `Regex::new(pattern)` followed by `find(text)`, keeping the start of the
/// match; the result is named `regex_first_match`. A match starts within the
/// text, as `Match::start` is a byte offset into it.
#[verifier::external_body]
fn regex_find_start(pattern: &str, text: &str) -> (r: Option<Option<usize>>)
    ensures
        match r {
            None => regex_first_match(pattern@, text@) is None,
            Some(None) => regex_first_match(pattern@, text@) == Some(None::<nat>),
            Some(Some(p)) => regex_first_match(pattern@, text@) == Some(Some(p as nat)) && p <= byte_len(
                text@,
            ),
        },
{
    let re = regex::Regex::new(pattern).ok()?;
    Some(re.find(text).map(|m| m.start()))
}

/// `regex::escape`; the result is named `regex_escaped`.
#[verifier::external_body]
fn regex_escape(s: &str) -> (r: String)
    ensures
        r@ == regex_escaped(s@),
{
    regex::escape(s)
}

// ---------------------------------------------------------------------------
// Imports
// ---------------------------------------------------------------------------

/// A module import: `import module namespace prefix = "uri" at "source"`.
pub struct Import {
    pub prefix: String,
    pub uri: String,
    pub source: String,
}

/// The regular expression that matches a module import, with the prefix, the
/// namespace URI and the source location as groups 1 to 3.
pub open spec fn import_pattern() -> Seq<char> {
    "import\\s+module\\s+namespace\\s+(\\S+)\\s*=\\s*[\"']([^\"']+)[\"']\\s+at\\s+[\"']([^\"']+)[\"']"@
}

fn import_pattern_str() -> (r: &'static str)
    ensures
        r@ == import_pattern(),
{
    "import\\s+module\\s+namespace\\s+(\\S+)\\s*=\\s*[\"']([^\"']+)[\"']\\s+at\\s+[\"']([^\"']+)[\"']"
}

/// The import that a match describes, when its three groups took part.
pub open spec fn import_of(m: Seq<Option<Seq<char>>>) -> Option<(Seq<char>, Seq<char>, Seq<char>)> {
    if m.len() >= 4 && m[1] is Some && m[2] is Some && m[3] is Some {
        Some((m[1]->0, m[2]->0, m[3]->0))
    } else {
        None
    }
}

/// The imports that the matches describe, in order.
pub open spec fn imports_from(ms: Seq<Seq<Option<Seq<char>>>>) -> Seq<(Seq<char>, Seq<char>, Seq<char>)>
    decreases ms.len(),
{
    if ms.len() == 0 {
        Seq::empty()
    } else {
        let rest = imports_from(ms.drop_last());
        match import_of(ms.last()) {
            Some(i) => rest.push(i),
            None => rest,
        }
    }
}

/// An import as its three texts.
pub open spec fn import_view(i: Import) -> (Seq<char>, Seq<char>, Seq<char>) {
    (i.prefix@, i.uri@, i.source@)
}

/// The imports of a document as texts.
pub open spec fn imports_view(v: Seq<Import>) -> Seq<(Seq<char>, Seq<char>, Seq<char>)> {
    v.map_values(|i: Import| import_view(i))
}

/// The imports that `text` declares.
pub open spec fn parse_imports_spec(text: Seq<char>) -> Seq<(Seq<char>, Seq<char>, Seq<char>)> {
    match regex_all_captures(import_pattern(), text) {
        Some(ms) => imports_from(ms),
        None => Seq::empty(),
    }
}

/// The module imports of a document, in the order they appear.
pub fn parse_imports(text: &str) -> (r: Vec<Import>)
    ensures
        imports_view(r@) == parse_imports_spec(text@),
{
    let found = regex_captures(import_pattern_str(), text);
    let ms = match found {
        None => return Vec::new(),
        Some(ms) => ms,
    };
    let ghost mv = captures_view(Some(ms))->0;
    let mut out: Vec<Import> = Vec::new();
    let mut i: usize = 0;
    while i < ms.len()
        invariant
            i <= ms.len(),
            mv == captures_view(Some(ms))->0,
            mv.len() == ms.len(),
            imports_view(out@) == imports_from(mv.take(i as int)),
        decreases ms.len() - i,
    {
        let m = &ms[i];
        let ghost gv = mv[i as int];
        proof {
            assert(mv.take(i + 1).drop_last() =~= mv.take(i as int));
            assert(mv.take(i + 1).last() == gv);
            assert(gv == m@.map_values(
                |g: Option<String>|
                    match g {
                        Some(s) => Some(s@),
                        None => None,
                    },
            ));
        }
        if m.len() >= 4 {
            match (&m[1], &m[2], &m[3]) {
                (Some(p), Some(u), Some(s)) => {
                    let imp = Import { prefix: p.clone(), uri: u.clone(), source: s.clone() };
                    let ghost before = out@;
                    out.push(imp);
                    proof {
                        assert(imports_view(out@) =~= imports_view(before).push(import_view(imp)));
                    }
                },
                _ => {},
            }
        }
        i += 1;
    }
    proof {
        assert(mv.take(ms.len() as int) =~= mv);
    }
    out
}

// ---------------------------------------------------------------------------
// Function declarations
// ---------------------------------------------------------------------------

/// The regular expression that matches a declaration of the function whose
/// (escaped) name is `escaped`, annotations included.
pub open spec fn declaration_pattern(escaped: Seq<char>) -> Seq<char> {
    "declare\\s+(?:%[\\w:\\-]+(?:\\([^)]*\\))?\\s+)*function\\s+"@ + escaped + "\\s*\\("@
}

/// Number of line feeds among `bytes`.
pub open spec fn line_feeds(bytes: Seq<u8>) -> nat
    decreases bytes.len(),
{
    if bytes.len() == 0 {
        0
    } else {
        line_feeds(bytes.drop_last()) + if bytes.last() == 0x0au8 {
            1nat
        } else {
            0nat
        }
    }
}

/// The zero-based line on which `text` first declares `name`: the number of
/// line feeds before the start of the first match.
pub open spec fn local_function_spec(text: Seq<char>, name: Seq<char>) -> Option<u32> {
    match regex_first_match(declaration_pattern(regex_escaped(name)), text) {
        Some(Some(p)) => Some(line_feeds(encode_utf8(text).take(p as int)) as u32),
        _ => None,
    }
}

/// The zero-based line of the first declaration of function `fn_name` in `text`.
pub fn find_local_function(text: &str, fn_name: &str) -> (r: Option<u32>)
    ensures
        r == local_function_spec(text@, fn_name@),
{
    let escaped = regex_escape(fn_name);
    let pattern = concat3(
        "declare\\s+(?:%[\\w:\\-]+(?:\\([^)]*\\))?\\s+)*function\\s+",
        escaped.as_str(),
        "\\s*\\(",
    );
    let start = match regex_find_start(pattern.as_str(), text) {
        Some(Some(p)) => p,
        _ => return None,
    };
    let bytes = text.as_bytes();
    proof {
        lemma_byte_len_encode(text@);
    }
    let mut count: usize = 0;
    let mut i: usize = 0;
    while i < start
        invariant
            i <= start <= bytes.len(),
            bytes@ == encode_utf8(text@),
            count == line_feeds(bytes@.take(i as int)),
            count <= i,
        decreases start - i,
    {
        proof {
            assert(bytes@.take(i + 1).drop_last() =~= bytes@.take(i as int));
        }
        if bytes[i] == 0x0au8 {
            count = count + 1;
        }
        i += 1;
    }
    #[verifier::truncate]
    let n = count as u32;
    Some(n)
}

} // verus!

verus! {

/// Lines are counted by line feeds alone: the count over two runs of bytes is
/// the sum of their counts, and one byte counts one exactly when it is `\n`
/// (so a `\r` never counts).
pub proof fn law_lines_counted_by_line_feeds(a: Seq<u8>, b: Seq<u8>, x: u8)
    ensures
        line_feeds(a + b) == line_feeds(a) + line_feeds(b),
        line_feeds(seq![x]) == (if x == 0x0au8 { 1nat } else { 0nat }),
    decreases b.len(),
{
    assert(seq![x].drop_last() =~= Seq::<u8>::empty());
    assert(line_feeds(seq![x].drop_last()) == 0);
    assert(seq![x].last() == x);
    if b.len() == 0 {
        assert(a + b =~= a);
    } else {
        law_lines_counted_by_line_feeds(a, b.drop_last(), x);
        assert((a + b).drop_last() =~= a + b.drop_last());
        assert((a + b).last() == b.last());
    }
}

/// The line reported for a declaration counts the line feeds before it, and
/// nothing else: inserting carriage returns (or any bytes other than `\n`)
/// before the declaration leaves the count unchanged, and each inserted `\n`
/// adds one.
pub proof fn law_carriage_returns_do_not_count(a: Seq<u8>, b: Seq<u8>, extra: Seq<u8>)
    requires
        forall|j: int| 0 <= j < extra.len() ==> #[trigger] extra[j] != 0x0au8,
    ensures
        line_feeds(a + extra + b) == line_feeds(a + b),
        line_feeds(a + seq![0x0au8] + b) == line_feeds(a + b) + 1,
{
    lemma_no_line_feeds(extra);
    law_lines_counted_by_line_feeds(a + extra, b, 0x0au8);
    law_lines_counted_by_line_feeds(a, extra, 0x0au8);
    law_lines_counted_by_line_feeds(a, b, 0x0au8);
    law_lines_counted_by_line_feeds(a + seq![0x0au8], b, 0x0au8);
    law_lines_counted_by_line_feeds(a, seq![0x0au8], 0x0au8);
}

proof fn lemma_no_line_feeds(s: Seq<u8>)
    requires
        forall|j: int| 0 <= j < s.len() ==> #[trigger] s[j] != 0x0au8,
    ensures
        line_feeds(s) == 0,
    decreases s.len(),
{
    if s.len() > 0 {
        assert(s.last() == s[s.len() - 1]);
        assert forall|j: int| 0 <= j < s.drop_last().len() implies #[trigger] s.drop_last()[j] != 0x0au8 by {
            assert(s.drop_last()[j] == s[j]);
        }
        lemma_no_line_feeds(s.drop_last());
    }
}

} // verus!

verus! {

/// Whether `b` is the line feed byte `\n`.
pub open spec fn is_line_feed(b: u8) -> bool {
    b == 0x0au8
}

proof fn lemma_line_feeds_filter(bytes: Seq<u8>)
    ensures
        line_feeds(bytes) == bytes.filter(|b: u8| is_line_feed(b)).len(),
    decreases bytes.len(),
{
    reveal(Seq::filter);
    if bytes.len() > 0 {
        lemma_line_feeds_filter(bytes.drop_last());
    }
}

/// The line reported for a declaration is the number of `\n` bytes in the
/// text before the start of the match, whatever other bytes stand there.
pub proof fn law_declaration_line(text: Seq<char>, name: Seq<char>, p: nat)
    requires
        regex_first_match(declaration_pattern(regex_escaped(name)), text) == Some(Some(p)),
    ensures
        local_function_spec(text, name) == Some(
            encode_utf8(text).take(p as int).filter(|b: u8| is_line_feed(b)).len() as u32,
        ),
{
    lemma_line_feeds_filter(encode_utf8(text).take(p as int));
}

} // verus!
