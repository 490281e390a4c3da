//! Paths: database paths as slash-separated segments, filesystem paths as
//! lists of components, and how a file's place in the database maps to its
//! place on disk.
use vstd::prelude::*;
use crate::text::{chars_of, concat2, index_of, lemma_index_of, next_index_of, string_from_chars};

verus! {

/// The text of each string.
pub open spec fn texts(v: Seq<String>) -> Seq<Seq<char>> {
    v.map_values(|s: String| s@)
}

proof fn lemma_texts_push(v: Seq<String>, x: String)
    ensures
        texts(v.push(x)) == texts(v).push(x@),
{
    assert(texts(v.push(x)) =~= texts(v).push(x@));
}

// ---------------------------------------------------------------------------
// Segments of a database path
// ---------------------------------------------------------------------------

/// The non-empty pieces of `s` between slashes.
pub open spec fn segments(s: Seq<char>) -> Seq<Seq<char>>
    decreases s.len(),
{
    if s.len() == 0 {
        Seq::empty()
    } else {
        let k = index_of(s, '/');
        let head = s.take(k as int);
        let rest = if k < s.len() {
            segments(s.skip(k + 1 as int))
        } else {
            Seq::empty()
        };
        if head.len() == 0 {
            rest
        } else {
            seq![head] + rest
        }
    }
}

/// The non-empty pieces of `s` between slashes, in order.
pub fn split_segments(s: &str) -> (r: Vec<String>)
    ensures
        texts(r@) == segments(s@),
{
    let v = chars_of(s);
    let mut out: Vec<String> = Vec::new();
    let mut pos: usize = 0;
    proof {
        assert(v@.skip(0) =~= v@);
        assert(texts(out@) =~= Seq::<Seq<char>>::empty());
    }
    while pos < v.len()
        invariant
            pos <= v.len(),
            v@ == s@,
            segments(s@) == texts(out@) + segments(v@.skip(pos as int)),
        decreases v.len() - pos,
    {
        let ghost rest = v@.skip(pos as int);
        let k = next_index_of(&v, pos, '/');
        proof {
            lemma_index_of(rest, '/');
            let kk = index_of(rest, '/');
            assert(rest.take(kk as int) =~= v@.subrange(pos as int, k as int));
            if k < v.len() {
                assert(rest.skip(kk + 1 as int) =~= v@.skip(k + 1));
            }
        }
        if k > pos {
            let piece = string_from_chars(&v, pos, k);
            let ghost before = out@;
            out.push(piece);
            proof {
                assert(texts(out@) =~= texts(before) + seq![piece@]);
            }
        }
        if k < v.len() {
            pos = k + 1;
        } else {
            proof {
                assert(v@.skip(v.len() as int) =~= Seq::<char>::empty());
                assert(segments(v@.skip(v.len() as int)) =~= Seq::<Seq<char>>::empty());
            }
            pos = v.len();
        }
        proof {
            assert(segments(s@) =~= texts(out@) + segments(v@.skip(pos as int)));
        }
    }
    proof {
        assert(v@.skip(pos as int) =~= Seq::<char>::empty());
        assert(segments(s@) =~= texts(out@));
    }
    out
}

// ---------------------------------------------------------------------------
// Relative database paths
// ---------------------------------------------------------------------------

/// Number of leading segments that `a` and `b` share.
pub open spec fn common_prefix_len(a: Seq<Seq<char>>, b: Seq<Seq<char>>) -> nat
    decreases a.len(),
{
    if a.len() == 0 || b.len() == 0 || a[0] != b[0] {
        0
    } else {
        1 + common_prefix_len(a.drop_first(), b.drop_first())
    }
}

/// The segments of the path from `from` to `to`, as Node's `path.relative`
/// gives them: one `..` for each segment of `from` past the shared ones, then
/// the rest of `to`.
pub open spec fn relative_spec(from: Seq<char>, to: Seq<char>) -> Seq<Seq<char>> {
    let f = segments(from);
    let t = segments(to);
    let c = common_prefix_len(f, t);
    Seq::new((f.len() - c) as nat, |i: int| ".."@) + t.skip(c as int)
}

proof fn lemma_common_prefix(a: Seq<Seq<char>>, b: Seq<Seq<char>>)
    ensures
        common_prefix_len(a, b) <= a.len(),
        common_prefix_len(a, b) <= b.len(),
        forall|i: int| 0 <= i < common_prefix_len(a, b) ==> a[i] == b[i],
        common_prefix_len(a, b) < a.len() && common_prefix_len(a, b) < b.len()
            ==> a[common_prefix_len(a, b) as int] != b[common_prefix_len(a, b) as int],
    decreases a.len(),
{
    if !(a.len() == 0 || b.len() == 0 || a[0] != b[0]) {
        lemma_common_prefix(a.drop_first(), b.drop_first());
        let c = common_prefix_len(a, b);
        assert forall|i: int| 0 <= i < c implies a[i] == b[i] by {
            if i > 0 {
                assert(a[i] == a.drop_first()[i - 1]);
                assert(b[i] == b.drop_first()[i - 1]);
            }
        }
        if c < a.len() && c < b.len() {
            assert(a[c as int] == a.drop_first()[c - 1]);
            assert(b[c as int] == b.drop_first()[c - 1]);
        }
    }
}

/// The common prefix length is the first place where the sequences differ.
proof fn lemma_common_prefix_unique(a: Seq<Seq<char>>, b: Seq<Seq<char>>, c: nat)
    requires
        c <= a.len(),
        c <= b.len(),
        forall|i: int| 0 <= i < c ==> a[i] == b[i],
        c < a.len() && c < b.len() ==> a[c as int] != b[c as int],
    ensures
        common_prefix_len(a, b) == c,
    decreases a.len(),
{
    if c > 0 {
        assert forall|i: int| 0 <= i < c - 1 implies a.drop_first()[i] == b.drop_first()[i] by {
            assert(a[i + 1] == b[i + 1]);
        }
        if c - 1 < a.len() - 1 && c - 1 < b.len() - 1 {
            assert(a.drop_first()[c - 1] == a[c as int]);
            assert(b.drop_first()[c - 1] == b[c as int]);
        }
        assert(a[0] == b[0]);
        lemma_common_prefix_unique(a.drop_first(), b.drop_first(), (c - 1) as nat);
    }
}

/// The segments of the relative path from `from` to `to`.
pub fn db_relative(from: &str, to: &str) -> (r: Vec<String>)
    ensures
        texts(r@) == relative_spec(from@, to@),
{
    let f = split_segments(from);
    let t = split_segments(to);
    let mut c: usize = 0;
    while c < f.len() && c < t.len() && f[c] == t[c]
        invariant
            c <= f.len(),
            c <= t.len(),
            forall|i: int| 0 <= i < c ==> texts(f@)[i] == texts(t@)[i],
        decreases f.len() - c,
    {
        c += 1;
    }
    proof {
        if c < f.len() && c < t.len() {
            assert(texts(f@)[c as int] != texts(t@)[c as int]);
        }
        lemma_common_prefix_unique(texts(f@), texts(t@), c as nat);
    }
    let mut out: Vec<String> = Vec::new();
    let mut i: usize = c;
    while i < f.len()
        invariant
            c <= i <= f.len(),
            texts(out@) =~= Seq::new((i - c) as nat, |j: int| ".."@),
        decreases f.len() - i,
    {
        let dots = String::from_str("..");
        proof {
            lemma_texts_push(out@, dots);
        }
        out.push(dots);
        i += 1;
    }
    let mut j: usize = c;
    let ghost ups = texts(out@);
    while j < t.len()
        invariant
            c <= j <= t.len(),
            texts(out@) =~= ups + texts(t@).subrange(c as int, j as int),
        decreases t.len() - j,
    {
        let seg = t[j].clone();
        proof {
            lemma_texts_push(out@, seg);
            assert(texts(t@).subrange(c as int, j + 1) =~= texts(t@).subrange(c as int, j as int).push(seg@));
        }
        out.push(seg);
        j += 1;
    }
    proof {
        assert(texts(t@).subrange(c as int, t.len() as int) =~= texts(t@).skip(c as int));
    }
    out
}

// ---------------------------------------------------------------------------
// Filesystem paths
// ---------------------------------------------------------------------------

/// A filesystem path: whether it starts at the root, and its named components.
pub struct FsPath {
    pub absolute: bool,
    pub parts: Vec<String>,
}

/// Applies relative segments to a list of components: `..` drops the last one
/// (if any), `.` does nothing, anything else is appended.
pub open spec fn apply_segments(base: Seq<Seq<char>>, rel: Seq<Seq<char>>) -> Seq<Seq<char>>
    decreases rel.len(),
{
    if rel.len() == 0 {
        base
    } else {
        let s = rel[0];
        let next = if s == ".."@ {
            if base.len() > 0 {
                base.drop_last()
            } else {
                base
            }
        } else if s == "."@ {
            base
        } else {
            base.push(s)
        };
        apply_segments(next, rel.drop_first())
    }
}

/// Where the file with database path `desc_db_path` lies on disk, given that
/// the database collection `current_db_dir` is the directory `current_fs_dir`.
pub open spec fn resolve_spec(desc_db_path: Seq<char>, current_db_dir: Seq<char>, dir: Seq<Seq<char>>) -> Seq<
    Seq<char>,
> {
    apply_segments(dir, relative_spec(current_db_dir, desc_db_path))
}

/// The location on disk of the file at `desc_db_path` in the database, given
/// that the database collection `current_db_dir` is the directory
/// `current_fs_dir` on disk.
pub fn resolve_db_path(desc_db_path: &str, current_db_dir: &str, current_fs_dir: &FsPath) -> (r: FsPath)
    ensures
        r.absolute == current_fs_dir.absolute,
        texts(r.parts@) == resolve_spec(desc_db_path@, current_db_dir@, texts(current_fs_dir.parts@)),
{
    let rel = db_relative(current_db_dir, desc_db_path);
    let mut parts: Vec<String> = Vec::new();
    let mut k: usize = 0;
    while k < current_fs_dir.parts.len()
        invariant
            k <= current_fs_dir.parts.len(),
            texts(parts@) =~= texts(current_fs_dir.parts@).take(k as int),
        decreases current_fs_dir.parts.len() - k,
    {
        let seg = current_fs_dir.parts[k].clone();
        proof {
            lemma_texts_push(parts@, seg);
            assert(texts(current_fs_dir.parts@).take(k + 1) =~= texts(current_fs_dir.parts@).take(k as int).push(seg@));
        }
        parts.push(seg);
        k += 1;
    }
    proof {
        assert(texts(current_fs_dir.parts@).take(k as int) =~= texts(current_fs_dir.parts@));
        assert(rel@.skip(0) =~= rel@);
    }
    let mut i: usize = 0;
    while i < rel.len()
        invariant
            i <= rel.len(),
            apply_segments(texts(current_fs_dir.parts@), texts(rel@)) == apply_segments(
                texts(parts@),
                texts(rel@.skip(i as int)),
            ),
        decreases rel.len() - i,
    {
        let seg = &rel[i];
        let ghost before = texts(parts@);
        proof {
            assert(texts(rel@.skip(i as int))[0] == seg@);
            assert(texts(rel@.skip(i as int)).drop_first() =~= texts(rel@.skip(i + 1)));
        }
        if crate::text::str_eq(seg.as_str(), "..") {
            if parts.len() > 0 {
                parts.pop();
                proof {
                    assert(texts(parts@) =~= before.drop_last());
                }
            }
        } else if crate::text::str_eq(seg.as_str(), ".") {
        } else {
            parts.push(seg.clone());
            proof {
                assert(texts(parts@) =~= before.push(seg@));
            }
        }
        i += 1;
    }
    proof {
        assert(rel@.skip(rel.len() as int) =~= Seq::<String>::empty());
        assert(texts(rel@.skip(rel.len() as int)) =~= Seq::<Seq<char>>::empty());
    }
    FsPath { absolute: current_fs_dir.absolute, parts }
}

// ---------------------------------------------------------------------------
// Paths relative to the workspace
// ---------------------------------------------------------------------------

/// The directory that holds `p`: `p` without its last component; none for a
/// path with no components.
pub open spec fn parent_spec(absolute: bool, parts: Seq<Seq<char>>) -> Option<(bool, Seq<Seq<char>>)> {
    if parts.len() == 0 {
        None
    } else {
        Some((absolute, parts.drop_last()))
    }
}

/// `path` relative to `base`, as `Path::strip_prefix` gives it: the components
/// of `path` after those of `base`, when they start with them; an empty
/// relative base strips nothing from any path.
pub open spec fn strip_prefix_spec(path: (bool, Seq<Seq<char>>), base: (bool, Seq<Seq<char>>)) -> Option<
    (bool, Seq<Seq<char>>),
> {
    if base.1.len() <= path.1.len() && path.1.take(base.1.len() as int) == base.1 && (base.0 == path.0 || (
    !base.0 && base.1.len() == 0)) {
        Some((path.0 && !base.0, path.1.skip(base.1.len() as int)))
    } else {
        None
    }
}

/// Components joined by `/`.
pub open spec fn join_slash(parts: Seq<Seq<char>>) -> Seq<char>
    decreases parts.len(),
{
    if parts.len() == 0 {
        Seq::empty()
    } else if parts.len() == 1 {
        parts[0]
    } else {
        join_slash(parts.drop_last()) + "/"@ + parts.last()
    }
}

/// A path written out: a leading `/` when it is absolute, then its components
/// joined by `/`.
pub open spec fn path_text(p: (bool, Seq<Seq<char>>)) -> Seq<char> {
    if p.0 {
        "/"@ + join_slash(p.1)
    } else {
        join_slash(p.1)
    }
}

/// The text of a path relative to the workspace, empty when it does not lie
/// inside it.
pub open spec fn relative_text(path: Option<(bool, Seq<Seq<char>>)>, workspace: Option<(bool, Seq<Seq<char>>)>) -> Seq<
    char,
> {
    match (path, workspace) {
        (Some(p), Some(w)) => match strip_prefix_spec(p, w) {
            Some(r) => path_text(r),
            None => Seq::empty(),
        },
        _ => Seq::empty(),
    }
}

/// A path as its flag and component texts.
pub open spec fn fs_view(p: FsPath) -> (bool, Seq<Seq<char>>) {
    (p.absolute, texts(p.parts@))
}

/// An optional path as its flag and component texts.
pub open spec fn fs_view_opt(p: Option<&FsPath>) -> Option<(bool, Seq<Seq<char>>)> {
    match p {
        Some(x) => Some(fs_view(*x)),
        None => None,
    }
}

/// The paths of a file and of its directory relative to the workspace.
pub open spec fn rel_paths_spec(file: Option<(bool, Seq<Seq<char>>)>, workspace: Option<(bool, Seq<Seq<char>>)>) -> (
    Seq<char>,
    Seq<char>,
) {
    let dir = match file {
        Some(f) => parent_spec(f.0, f.1),
        None => None,
    };
    (relative_text(file, workspace), relative_text(dir, workspace))
}

fn join_parts(absolute: bool, parts: &Vec<String>, from: usize) -> (r: String)
    requires
        from <= parts.len(),
    ensures
        r@ == path_text((absolute, texts(parts@).skip(from as int))),
{
    let mut out = String::new();
    let mut i = from;
    while i < parts.len()
        invariant
            from <= i <= parts.len(),
            out@ == join_slash(texts(parts@).subrange(from as int, i as int)),
        decreases parts.len() - i,
    {
        let ghost prev = texts(parts@).subrange(from as int, i as int);
        let ghost next = texts(parts@).subrange(from as int, i + 1);
        proof {
            assert(next.drop_last() =~= prev);
            assert(next.last() == parts@[i as int]@);
        }
        if i > from {
            out = concat2(out.as_str(), "/");
            out.append(parts[i].as_str());
        } else {
            out.append(parts[i].as_str());
            proof {
                assert(prev.len() == 0);
                assert(out@ =~= next[0]);
            }
        }
        i += 1;
    }
    proof {
        assert(texts(parts@).subrange(from as int, parts.len() as int) =~= texts(parts@).skip(from as int));
    }
    if absolute {
        concat2("/", out.as_str())
    } else {
        out
    }
}

/// `path` relative to `base` written out (empty when `path` is not below
/// `base`), optionally without the last component of `path`.
fn relative_of(path: &FsPath, drop_last: bool, base: &FsPath) -> (r: String)
    ensures
        drop_last ==> r@ == relative_text(parent_spec(path.absolute, texts(path.parts@)), Some(fs_view(*base))),
        !drop_last ==> r@ == relative_text(Some(fs_view(*path)), Some(fs_view(*base))),
{
    let n = path.parts.len();
    if drop_last && n == 0 {
        return String::new();
    }
    let len = if drop_last {
        n - 1
    } else {
        n
    };
    let ghost p = if drop_last {
        texts(path.parts@).drop_last()
    } else {
        texts(path.parts@)
    };
    proof {
        assert(p =~= texts(path.parts@).take(len as int));
    }
    let b = &base.parts;
    let flags_ok = base.absolute == path.absolute || (!base.absolute && b.len() == 0);
    if b.len() > len || !flags_ok {
        return String::new();
    }
    let mut i: usize = 0;
    while i < b.len()
        invariant
            i <= b.len() <= len <= n,
            n == path.parts.len(),
            p == texts(path.parts@).take(len as int),
            drop_last ==> n > 0 && p == texts(path.parts@).drop_last(),
            !drop_last ==> p == texts(path.parts@),
            b@ == base.parts@,
            flags_ok == (base.absolute == path.absolute || (!base.absolute && b.len() == 0)),
            flags_ok,
            forall|j: int| 0 <= j < i ==> texts(b@)[j] == p[j],
        decreases b.len() - i,
    {
        if path.parts[i] != b[i] {
            proof {
                assert(p.take(b.len() as int)[i as int] != texts(b@)[i as int]);
                assert(p.take(b.len() as int) != texts(b@));
            }
            return String::new();
        }
        i += 1;
    }
    proof {
        assert(p.take(b.len() as int) =~= texts(b@));
    }
    let mut kept: Vec<String> = Vec::new();
    let mut k: usize = 0;
    while k < len
        invariant
            k <= len <= n,
            n == path.parts.len(),
            texts(kept@) =~= texts(path.parts@).take(k as int),
        decreases len - k,
    {
        let seg = path.parts[k].clone();
        proof {
            lemma_texts_push(kept@, seg);
            assert(texts(path.parts@).take(k + 1) =~= texts(path.parts@).take(k as int).push(seg@));
        }
        kept.push(seg);
        k += 1;
    }
    proof {
        assert(texts(kept@).skip(b.len() as int) =~= p.skip(b.len() as int));
    }
    join_parts(path.absolute && !base.absolute, &kept, b.len())
}

/// The paths of `file` and of its directory relative to `workspace`, each
/// empty when it cannot be given.
pub fn file_rel_paths(file: Option<&FsPath>, workspace: Option<&FsPath>) -> (r: (String, String))
    ensures
        (r.0@, r.1@) == rel_paths_spec(fs_view_opt(file), fs_view_opt(workspace)),
{
    match (file, workspace) {
        (Some(f), Some(w)) => (relative_of(f, false, w), relative_of(f, true, w)),
        _ => (String::new(), String::new()),
    }
}

// ---------------------------------------------------------------------------
// Laws
// ---------------------------------------------------------------------------

/// A segment that names a directory entry: neither `.` nor `..`.
pub open spec fn ordinary(s: Seq<char>) -> bool {
    s != "."@ && s != ".."@
}

proof fn lemma_apply_ups(base: Seq<Seq<char>>, n: nat, rest: Seq<Seq<char>>)
    requires
        n <= base.len(),
    ensures
        apply_segments(base, Seq::new(n, |i: int| ".."@) + rest) == apply_segments(
            base.take(base.len() - n),
            rest,
        ),
    decreases n,
{
    let ups = Seq::new(n, |i: int| ".."@);
    if n == 0 {
        assert(ups + rest =~= rest);
        assert(base.take(base.len() as int) =~= base);
    } else {
        let all = ups + rest;
        assert(all[0] == ".."@);
        assert(all.drop_first() =~= Seq::new((n - 1) as nat, |i: int| ".."@) + rest);
        lemma_apply_ups(base.drop_last(), (n - 1) as nat, rest);
        assert(base.drop_last().take(base.drop_last().len() - (n - 1)) =~= base.take(base.len() - n));
    }
}

proof fn lemma_apply_ordinary(base: Seq<Seq<char>>, rest: Seq<Seq<char>>)
    requires
        forall|i: int| 0 <= i < rest.len() ==> ordinary(#[trigger] rest[i]),
    ensures
        apply_segments(base, rest) == base + rest,
    decreases rest.len(),
{
    if rest.len() == 0 {
        assert(base + rest =~= base);
    } else {
        assert(ordinary(rest[0]));
        assert forall|i: int| 0 <= i < rest.drop_first().len() implies ordinary(#[trigger] rest.drop_first()[i]) by {
            assert(rest.drop_first()[i] == rest[i + 1]);
        }
        lemma_apply_ordinary(base.push(rest[0]), rest.drop_first());
        assert(base.push(rest[0]) + rest.drop_first() =~= base + rest);
    }
}

proof fn lemma_common_prefix_concat(p: Seq<Seq<char>>, a: Seq<Seq<char>>, b: Seq<Seq<char>>)
    ensures
        common_prefix_len(a, b) + p.len() == common_prefix_len(p + a, p + b),
    decreases p.len(),
{
    if p.len() == 0 {
        assert(p + a =~= a);
        assert(p + b =~= b);
    } else {
        assert((p + a).drop_first() =~= p.drop_first() + a);
        assert((p + b).drop_first() =~= p.drop_first() + b);
        lemma_common_prefix_concat(p.drop_first(), a, b);
    }
}

/// Following the relative path from one database path to another, starting
/// at the directory that mirrors the first, reaches the location that
/// mirrors the second: if the directory on disk is `prefix` followed by the
/// segments of `current_db_dir`, the file at `desc_db_path` resolves to
/// `prefix` followed by the segments of `desc_db_path` (all segments being
/// ordinary names).
pub proof fn law_resolve_mirrors_database(desc_db_path: Seq<char>, current_db_dir: Seq<char>, prefix: Seq<Seq<char>>)
    requires
        forall|i: int| 0 <= i < segments(current_db_dir).len() ==> ordinary(#[trigger] segments(current_db_dir)[i]),
        forall|i: int| 0 <= i < segments(desc_db_path).len() ==> ordinary(#[trigger] segments(desc_db_path)[i]),
    ensures
        resolve_spec(desc_db_path, current_db_dir, prefix + segments(current_db_dir)) == prefix + segments(
            desc_db_path,
        ),
{
    let f = segments(current_db_dir);
    let t = segments(desc_db_path);
    let c = common_prefix_len(f, t);
    lemma_common_prefix(f, t);
    let dir = prefix + f;
    let n = (f.len() - c) as nat;
    lemma_apply_ups(dir, n, t.skip(c as int));
    let kept = dir.take(dir.len() - n);
    assert(kept =~= prefix + t.take(c as int)) by {
        assert forall|i: int| 0 <= i < kept.len() implies kept[i] == (prefix + t.take(c as int))[i] by {
            if i >= prefix.len() {
                assert(kept[i] == f[i - prefix.len()]);
            }
        }
    }
    assert forall|i: int| 0 <= i < t.skip(c as int).len() implies ordinary(#[trigger] t.skip(c as int)[i]) by {
        assert(t.skip(c as int)[i] == t[i + c]);
    }
    lemma_apply_ordinary(kept, t.skip(c as int));
    assert(prefix + t.take(c as int) + t.skip(c as int) =~= prefix + t);
}

/// The relative path from a database path to itself is empty.
pub proof fn law_relative_to_self(p: Seq<char>)
    ensures
        relative_spec(p, p) == Seq::<Seq<char>>::empty(),
{
    let f = segments(p);
    lemma_common_prefix(f, f);
    lemma_common_prefix_unique(f, f, f.len());
    assert(relative_spec(p, p) =~= Seq::<Seq<char>>::empty());
}

} // verus!
