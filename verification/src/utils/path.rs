use vstd::prelude::*;
use super::text::{append_all, append_range, chars_of, push_char, string_of_range};

verus! {

broadcast use {vstd::string::group_string_axioms, vstd::slice::group_slice_axioms};

// ---------------------------------------------------------------------------
// Character searches
// ---------------------------------------------------------------------------

/// Path separators: forward and back slash.
pub open spec fn is_sep(c: char) -> bool {
    c == '/' || c == '\\'
}

/// The separator predicate.
pub open spec fn sep_pred() -> spec_fn(char) -> bool {
    |x: char| is_sep(x)
}

/// The predicate "equals `c`".
pub open spec fn eq_char(c: char) -> spec_fn(char) -> bool {
    |x: char| x == c
}

/// Index of the last element of `s` satisfying `p`, or -1 when none does.
pub open spec fn last_match(s: Seq<char>, p: spec_fn(char) -> bool) -> int
    decreases s.len(),
{
    if s.len() == 0 {
        -1
    } else if p(s.last()) {
        s.len() - 1
    } else {
        last_match(s.drop_last(), p)
    }
}

/// Index of the first element of `s` satisfying `p`, or -1 when none does.
pub open spec fn first_match(s: Seq<char>, p: spec_fn(char) -> bool) -> int
    decreases s.len(),
{
    if s.len() == 0 {
        -1
    } else if p(s[0]) {
        0
    } else {
        let r = first_match(s.drop_first(), p);
        if r < 0 {
            -1
        } else {
            r + 1
        }
    }
}

/// `pat` starts at position `i` of `s`.
pub open spec fn occurs_at(s: Seq<char>, pat: Seq<char>, i: int) -> bool {
    0 <= i && i + pat.len() <= s.len() && s.subrange(i, i + pat.len()) == pat
}

/// Position of the first occurrence of `pat` in `s`, or -1.
pub open spec fn first_occurrence(s: Seq<char>, pat: Seq<char>) -> int
    decreases s.len(),
{
    if s.len() < pat.len() {
        -1
    } else if s.subrange(0, pat.len() as int) == pat {
        0
    } else if s.len() == 0 {
        -1
    } else {
        let r = first_occurrence(s.drop_first(), pat);
        if r < 0 {
            -1
        } else {
            r + 1
        }
    }
}

/// `r` reports the search result `x`: `Some(x)` for a position, `None` for -1.
pub open spec fn found_at(r: Option<usize>, x: int) -> bool {
    match r {
        Some(i) => x == i as int,
        None => x < 0,
    }
}

proof fn lemma_last_match(s: Seq<char>, p: spec_fn(char) -> bool)
    ensures
        -1 <= last_match(s, p) < s.len(),
        last_match(s, p) >= 0 ==> p(s[last_match(s, p)]),
        forall|j: int| last_match(s, p) < j < s.len() ==> !p(#[trigger] s[j]),
    decreases s.len(),
{
    if s.len() > 0 && !p(s.last()) {
        lemma_last_match(s.drop_last(), p);
        let r = last_match(s.drop_last(), p);
        assert forall|j: int| r < j < s.len() implies !p(#[trigger] s[j]) by {
            if j < s.len() - 1 {
                assert(s[j] == s.drop_last()[j]);
            }
        }
    }
}

/// The last match is the only index that matches with no match after it.
proof fn lemma_last_match_unique(s: Seq<char>, p: spec_fn(char) -> bool, i: int)
    requires
        -1 <= i < s.len(),
        i >= 0 ==> p(s[i]),
        forall|j: int| i < j < s.len() ==> !p(#[trigger] s[j]),
    ensures
        last_match(s, p) == i,
{
    lemma_last_match(s, p);
    let r = last_match(s, p);
    if r < i {
        assert(!p(s[i]));
    } else if r > i {
        assert(!p(s[r]));
    }
}

proof fn lemma_first_match(s: Seq<char>, p: spec_fn(char) -> bool)
    ensures
        -1 <= first_match(s, p) < s.len(),
        first_match(s, p) >= 0 ==> p(s[first_match(s, p)]),
        forall|j: int| 0 <= j < s.len() && (first_match(s, p) < 0 || j < first_match(s, p))
            ==> !p(#[trigger] s[j]),
    decreases s.len(),
{
    if s.len() > 0 && !p(s[0]) {
        lemma_first_match(s.drop_first(), p);
        let r = first_match(s.drop_first(), p);
        assert forall|j: int|
            0 <= j < s.len() && (first_match(s, p) < 0 || j < first_match(s, p)) implies !p(
            #[trigger] s[j],
        ) by {
            if j > 0 {
                assert(s[j] == s.drop_first()[j - 1]);
            }
        }
    }
}

/// The first match is the only index that matches with no match before it.
proof fn lemma_first_match_unique(s: Seq<char>, p: spec_fn(char) -> bool, i: int)
    requires
        -1 <= i < s.len(),
        i >= 0 ==> p(s[i]),
        forall|j: int| 0 <= j < s.len() && (i < 0 || j < i) ==> !p(#[trigger] s[j]),
    ensures
        first_match(s, p) == i,
{
    lemma_first_match(s, p);
    let r = first_match(s, p);
    if r >= 0 && (i < 0 || r < i) {
        assert(!p(s[r]));
    } else if i >= 0 && (r < 0 || i < r) {
        assert(!p(s[i]));
    }
}

proof fn lemma_first_occurrence(s: Seq<char>, pat: Seq<char>)
    ensures
        first_occurrence(s, pat) >= -1,
        first_occurrence(s, pat) >= 0 ==> occurs_at(s, pat, first_occurrence(s, pat)),
        forall|j: int|
            0 <= j && (first_occurrence(s, pat) < 0 || j < first_occurrence(s, pat)) ==> !occurs_at(
                s,
                pat,
                j,
            ),
    decreases s.len(),
{
    if s.len() < pat.len() {
    } else if s.subrange(0, pat.len() as int) == pat {
    } else if s.len() == 0 {
    } else {
        let t = s.drop_first();
        lemma_first_occurrence(t, pat);
        let r = first_occurrence(t, pat);
        if r >= 0 {
            assert(s.subrange(r + 1, r + 1 + pat.len()) == t.subrange(r, r + pat.len()));
        }
        assert forall|j: int|
            0 <= j && (first_occurrence(s, pat) < 0 || j < first_occurrence(s, pat)) implies !occurs_at(
            s,
            pat,
            j,
        ) by {
            if j > 0 && occurs_at(s, pat, j) {
                assert(t.subrange(j - 1, j - 1 + pat.len()) == s.subrange(j, j + pat.len()));
                assert(occurs_at(t, pat, j - 1));
            }
        }
    }
}

proof fn lemma_first_occurrence_unique(s: Seq<char>, pat: Seq<char>, i: int)
    requires
        i >= -1,
        i >= 0 ==> occurs_at(s, pat, i),
        forall|j: int| 0 <= j && (i < 0 || j < i) ==> !occurs_at(s, pat, j),
    ensures
        first_occurrence(s, pat) == i,
{
    lemma_first_occurrence(s, pat);
    let r = first_occurrence(s, pat);
    if r >= 0 && (i < 0 || r < i) {
        assert(!occurs_at(s, pat, r));
    } else if i >= 0 && (r < 0 || i < r) {
        assert(!occurs_at(s, pat, i));
    }
}

/// Position of the last separator in `v[..hi]`.
fn last_sep_before(v: &Vec<char>, hi: usize) -> (r: Option<usize>)
    requires
        hi <= v@.len(),
    ensures
        found_at(r, last_match(v@.subrange(0, hi as int), sep_pred())),
        r matches Some(i) ==> i < hi,
{
    let ghost s = v@.subrange(0, hi as int);
    let mut i = hi;
    while i > 0
        invariant
            i <= hi <= v@.len(),
            s == v@.subrange(0, hi as int),
            forall|j: int| i <= j < hi ==> !(#[trigger] sep_pred()(s[j])),
        decreases i,
    {
        let c = v[i - 1];
        if c == '/' || c == '\\' {
            proof {
                lemma_last_match_unique(s, sep_pred(), i - 1);
            }
            return Some(i - 1);
        }
        i = i - 1;
    }
    proof {
        lemma_last_match_unique(s, sep_pred(), -1);
    }
    None
}

/// Position of the last `c` in `v`.
fn last_char(v: &Vec<char>, c: char) -> (r: Option<usize>)
    ensures
        found_at(r, last_match(v@, eq_char(c))),
        r matches Some(i) ==> i < v@.len(),
{
    let mut i = v.len();
    while i > 0
        invariant
            i <= v@.len(),
            forall|j: int| i <= j < v@.len() ==> !(#[trigger] eq_char(c)(v@[j])),
        decreases i,
    {
        if v[i - 1] == c {
            proof {
                lemma_last_match_unique(v@, eq_char(c), i - 1);
            }
            return Some(i - 1);
        }
        i = i - 1;
    }
    proof {
        lemma_last_match_unique(v@, eq_char(c), -1);
    }
    None
}

/// Position of the first `c` in `v`.
fn first_char(v: &Vec<char>, c: char) -> (r: Option<usize>)
    ensures
        found_at(r, first_match(v@, eq_char(c))),
        r matches Some(i) ==> i < v@.len(),
{
    let mut i: usize = 0;
    while i < v.len()
        invariant
            i <= v@.len(),
            forall|j: int| 0 <= j < i ==> !(#[trigger] eq_char(c)(v@[j])),
        decreases v@.len() - i,
    {
        if v[i] == c {
            proof {
                lemma_first_match_unique(v@, eq_char(c), i as int);
            }
            return Some(i);
        }
        i = i + 1;
    }
    proof {
        lemma_first_match_unique(v@, eq_char(c), -1);
    }
    None
}

/// Position of the first occurrence of the three characters `a b c` in `v`.
fn first_triple(v: &Vec<char>, a: char, b: char, c: char) -> (r: Option<usize>)
    ensures
        found_at(r, first_occurrence(v@, seq![a, b, c])),
        r matches Some(i) ==> i + 3 <= v@.len(),
{
    let ghost pat = seq![a, b, c];
    let n = v.len();
    let mut i: usize = 0;
    while n >= 3 && i <= n - 3
        invariant
            n == v@.len(),
            i <= n,
            pat == seq![a, b, c],
            forall|j: int| 0 <= j < i ==> !occurs_at(v@, pat, j),
        decreases n - i,
    {
        if v[i] == a && v[i + 1] == b && v[i + 2] == c {
            proof {
                assert(v@.subrange(i as int, i + 3) == pat);
                lemma_first_occurrence_unique(v@, pat, i as int);
            }
            return Some(i);
        }
        proof {
            if occurs_at(v@, pat, i as int) {
                assert(v@.subrange(i as int, i + 3)[0] == v@[i as int]);
                assert(v@.subrange(i as int, i + 3)[1] == v@[i + 1]);
                assert(v@.subrange(i as int, i + 3)[2] == v@[i + 2]);
            }
        }
        i = i + 1;
    }
    proof {
        assert forall|j: int| 0 <= j && (-1 < 0 || j < -1) implies !occurs_at(v@, pat, j) by {
            if j >= i {
                assert(j + 3 > n);
            }
        }
        lemma_first_occurrence_unique(v@, pat, -1);
    }
    None
}


/// Appends `v[lo..hi]` to the character vector `out`.
fn push_range(out: &mut Vec<char>, v: &Vec<char>, lo: usize, hi: usize)
    requires
        lo <= hi <= v@.len(),
    ensures
        final(out)@ == old(out)@ + v@.subrange(lo as int, hi as int),
{
    let mut i = lo;
    while i < hi
        invariant
            lo <= i <= hi,
            hi <= v@.len(),
            out@ == old(out)@ + v@.subrange(lo as int, i as int),
        decreases hi - i,
    {
        out.push(v[i]);
        i = i + 1;
        assert(out@ == old(out)@ + v@.subrange(lo as int, i as int));
    }
}

/// The string made of the characters of `v`.
fn string_of(v: &Vec<char>) -> (r: String)
    ensures
        r@ == v@,
{
    let mut s = String::new();
    append_all(&mut s, v);
    s
}

// ---------------------------------------------------------------------------
// Path model
// ---------------------------------------------------------------------------

/// Index of the last separator, or -1.
pub open spec fn last_sep(s: Seq<char>) -> int {
    last_match(s, sep_pred())
}

/// `s` without one trailing separator.
pub open spec fn remove_last_sep(s: Seq<char>) -> Seq<char> {
    if s.len() > 0 && is_sep(s.last()) {
        s.drop_last()
    } else {
        s
    }
}

/// Index of the first `?`, or -1.
pub open spec fn query_start(s: Seq<char>) -> int {
    first_match(s, eq_char('?'))
}

/// The path without its query string; a `?` in first position starts no query.
pub open spec fn strip_query(s: Seq<char>) -> Seq<char> {
    if query_start(s) > 0 {
        s.take(query_start(s))
    } else {
        s
    }
}

/// The query string of a path, `?` included, or nothing.
pub open spec fn query_part(s: Seq<char>) -> Seq<char> {
    if query_start(s) > 0 {
        s.skip(query_start(s))
    } else {
        Seq::empty()
    }
}

/// Segments joined by `/`, each partial result losing one trailing separator.
pub open spec fn join_spec(segs: Seq<Seq<char>>) -> Seq<char>
    decreases segs.len(),
{
    if segs.len() == 0 {
        Seq::empty()
    } else {
        let r = join_spec(segs.drop_last());
        let r2 = if r.len() > 0 {
            r.push('/')
        } else {
            r
        };
        remove_last_sep(r2 + segs.last())
    }
}

/// The extension, dot included, of a path without its query; empty if none.
pub open spec fn extname_spec(path: Seq<char>) -> Seq<char> {
    let q = strip_query(path);
    let i = last_match(q, eq_char('.'));
    if path.len() == 0 || i < 0 {
        Seq::empty()
    } else {
        q.skip(i)
    }
}

/// A file name without its last extension.
pub open spec fn main_filename_spec(f: Seq<char>) -> Seq<char> {
    let i = last_match(f, eq_char('.'));
    if i >= 0 {
        f.take(i)
    } else {
        f
    }
}

/// The last path component of a path without its query and trailing separator.
pub open spec fn base_of(path: Seq<char>) -> Seq<char> {
    let c = remove_last_sep(strip_query(path));
    let i = last_sep(c);
    if i >= 0 {
        c.skip(i + 1)
    } else {
        c
    }
}

/// A character code with ASCII upper case folded to lower case.
pub open spec fn fold_code(c: char) -> u32 {
    if 65 <= (c as u32) <= 90 {
        (c as u32 + 32) as u32
    } else {
        c as u32
    }
}

/// Equality up to ASCII case.
pub open spec fn eq_ignore_ascii_case(a: Seq<char>, b: Seq<char>) -> bool {
    a.len() == b.len() && forall|i: int| 0 <= i < a.len() ==> fold_code(a[i]) == fold_code(b[i])
}

/// Number of bytes of the UTF-8 encoding.
pub open spec fn utf8_len(s: Seq<char>) -> int {
    vstd::utf8::encode_utf8(s).len() as int
}

/// `ext` is removed when it is non-empty, shorter in bytes than the base
/// name, and equal up to ASCII case to the base name's tail.
pub open spec fn strips_ext(b: Seq<char>, ext: Seq<char>) -> bool {
    &&& ext.len() > 0
    &&& utf8_len(ext) < utf8_len(b)
    &&& b.len() >= ext.len()
    &&& eq_ignore_ascii_case(b.skip(b.len() - ext.len()), ext)
}

/// Base name of a path, with `ext` removed when it ends the name.
pub open spec fn basename_spec(path: Seq<char>, ext: Seq<char>) -> Seq<char> {
    let b = base_of(path);
    if strips_ext(b, ext) {
        b.take(b.len() - ext.len())
    } else {
        b
    }
}

/// The tail comparison of `basename` cuts the name at a byte offset; that
/// offset must fall on a character boundary.
pub open spec fn basename_cut_ok(path: Seq<char>, ext: Seq<char>) -> bool {
    let b = base_of(path);
    ext.len() > 0 && utf8_len(ext) < utf8_len(b) ==> vstd::utf8::is_char_boundary(
        vstd::utf8::encode_utf8(b),
        utf8_len(b) - utf8_len(ext),
    )
}

/// Everything before the last separator, without a trailing separator.
pub open spec fn dirname_spec(path: Seq<char>) -> Seq<char> {
    let i = last_sep(path);
    if i >= 0 {
        remove_last_sep(path.take(i))
    } else {
        Seq::empty()
    }
}

/// The path with its last extension replaced by `ext`, query kept.
pub open spec fn change_extname_spec(path: Seq<char>, ext: Seq<char>) -> Seq<char> {
    let p = strip_query(path);
    let i = last_match(p, eq_char('.'));
    let stem = if i >= 0 {
        p.take(i)
    } else {
        p
    };
    stem + ext + query_part(path)
}

/// The directory part kept by `change_basename`: up to and including the last
/// separator, `/` for a separator in first position, nothing without one.
pub open spec fn dir_prefix(p: Seq<char>) -> Seq<char> {
    let i = last_sep(p);
    if i > 0 {
        p.take(i + 1)
    } else if i == 0 {
        seq!['/']
    } else {
        Seq::empty()
    }
}

/// The path with its base name replaced; a name starting with `.` replaces
/// the extension only.
pub open spec fn change_basename_spec(path: Seq<char>, name: Seq<char>, same_ext: bool) -> Seq<char> {
    if name.len() > 0 && name[0] == '.' {
        change_extname_spec(path, name)
    } else {
        let p = strip_query(path);
        let ext = if same_ext {
            extname_spec(p)
        } else {
            Seq::empty()
        };
        dir_prefix(p) + name + ext + query_part(path)
    }
}

/// `../`
pub open spec fn up_slash() -> Seq<char> {
    seq!['.', '.', '/']
}

/// `..\`
pub open spec fn up_backslash() -> Seq<char> {
    seq!['.', '.', '\\']
}

/// Position of the parent reference resolved next: the first `../`, or if
/// there is none the first `..\`.
pub open spec fn up_ref(u: Seq<char>) -> int {
    let i = first_occurrence(u, up_slash());
    if i >= 0 {
        i
    } else {
        first_occurrence(u, up_backslash())
    }
}

/// One resolution step: a parent reference cancels the directory before it
/// (keeping a `/` in its place), or is dropped together with everything
/// before it when no such directory is found.
pub open spec fn normalize_step(u: Seq<char>) -> Seq<char> {
    let idx = up_ref(u);
    if idx < 0 {
        u
    } else if idx > 0 {
        let ps = last_sep(u.take(idx));
        let pts = if ps > 0 {
            last_sep(u.take(ps))
        } else {
            -1
        };
        if pts >= 0 {
            u.take(pts).push('/') + u.skip(idx + 3)
        } else {
            u.skip(idx + 3)
        }
    } else {
        u.skip(3)
    }
}

/// Resolution steps repeated until the path stops shrinking.
pub open spec fn normalize_spec(u: Seq<char>) -> Seq<char>
    decreases u.len(),
{
    let v = normalize_step(u);
    if v.len() < u.len() {
        normalize_spec(v)
    } else {
        u
    }
}

proof fn lemma_up_ref(u: Seq<char>)
    ensures
        up_ref(u) >= -1,
        up_ref(u) >= 0 ==> up_ref(u) + 3 <= u.len(),
{
    lemma_first_occurrence(u, up_slash());
    lemma_first_occurrence(u, up_backslash());
}

/// A step either leaves the path alone (no parent reference) or shortens it.
proof fn lemma_normalize_step(u: Seq<char>)
    ensures
        up_ref(u) < 0 ==> normalize_step(u) == u,
        up_ref(u) >= 0 ==> normalize_step(u).len() < u.len(),
{
    lemma_up_ref(u);
    let idx = up_ref(u);
    if idx > 0 {
        lemma_last_match(u.take(idx), sep_pred());
        let ps = last_sep(u.take(idx));
        if ps > 0 {
            lemma_last_match(u.take(ps), sep_pred());
        }
    }
}

/// Normalizing resolves every parent reference: the result holds neither
/// `../` nor `..\`, is no longer than the input, normalizes to itself, and
/// a path without parent references is left as it is.
pub proof fn lemma_normalize_resolves(u: Seq<char>)
    ensures
        forall|j: int| 0 <= j ==> !occurs_at(normalize_spec(u), up_slash(), j),
        forall|j: int| 0 <= j ==> !occurs_at(normalize_spec(u), up_backslash(), j),
        normalize_spec(u).len() <= u.len(),
        normalize_spec(normalize_spec(u)) == normalize_spec(u),
        up_ref(u) < 0 ==> normalize_spec(u) == u,
    decreases u.len(),
{
    lemma_normalize_step(u);
    let v = normalize_step(u);
    if v.len() < u.len() {
        lemma_normalize_resolves(v);
    } else {
        lemma_first_occurrence(u, up_slash());
        lemma_first_occurrence(u, up_backslash());
        assert(up_ref(u) < 0);
    }
}


// ---------------------------------------------------------------------------
// Path operations
// ---------------------------------------------------------------------------

/// Position of the last separator in the path.
fn find_last_sep(v: &Vec<char>) -> (r: Option<usize>)
    ensures
        found_at(r, last_sep(v@)),
        r matches Some(i) ==> i < v@.len(),
{
    let r = last_sep_before(v, v.len());
    assert(v@.subrange(0, v@.len() as int) == v@);
    r
}

/// Drops one trailing separator.
fn remove_last_slash(v: Vec<char>) -> (r: Vec<char>)
    ensures
        r@ == remove_last_sep(v@),
{
    let mut v = v;
    let n = v.len();
    if n > 0 {
        let c = v[n - 1];
        if c == '/' || c == '\\' {
            v.pop();
        }
    }
    v
}

/// The path without its query string.
fn strip_query_string(v: &Vec<char>) -> (r: Vec<char>)
    ensures
        r@ == strip_query(v@),
{
    let mut out: Vec<char> = Vec::new();
    match first_char(v, '?') {
        Some(i) if i > 0 => {
            push_range(&mut out, v, 0, i);
        },
        _ => {
            push_range(&mut out, v, 0, v.len());
            assert(v@.subrange(0, v@.len() as int) == v@);
        },
    }
    out
}

/// The path split into its part before the query and the query itself.
fn split_query_string(v: &Vec<char>) -> (r: (Vec<char>, Vec<char>))
    ensures
        r.0@ == strip_query(v@),
        r.1@ == query_part(v@),
{
    let mut head: Vec<char> = Vec::new();
    let mut tail: Vec<char> = Vec::new();
    match first_char(v, '?') {
        Some(i) if i > 0 => {
            push_range(&mut head, v, 0, i);
            push_range(&mut tail, v, i, v.len());
        },
        _ => {
            push_range(&mut head, v, 0, v.len());
            assert(v@.subrange(0, v@.len() as int) == v@);
        },
    }
    (head, tail)
}

/// The segments joined by `/`, without doubled or trailing separators
/// between them.
pub fn join(segments: &[&str]) -> (r: String)
    ensures
        r@ == join_spec(segments@.map_values(|s: &str| s@)),
{
    let ghost segs = segments@.map_values(|s: &str| s@);
    let mut result: Vec<char> = Vec::new();
    let mut i: usize = 0;
    while i < segments.len()
        invariant
            i <= segments@.len(),
            segs == segments@.map_values(|s: &str| s@),
            result@ == join_spec(segs.take(i as int)),
        decreases segments@.len() - i,
    {
        proof {
            assert(segs.take(i + 1).drop_last() == segs.take(i as int));
            assert(segs.take(i + 1).last() == segments@[i as int]@);
        }
        if result.len() > 0 {
            result.push('/');
        }
        let seg = chars_of(segments[i]);
        push_range(&mut result, &seg, 0, seg.len());
        assert(seg@.subrange(0, seg@.len() as int) == seg@);
        result = remove_last_slash(result);
        i = i + 1;
    }
    assert(segs.take(segments@.len() as int) == segs);
    string_of(&result)
}

/// The extension of the path, dot included; the query string is ignored.
pub fn extname(path: &str) -> (r: String)
    ensures
        r@ == extname_spec(path@),
{
    if path.is_empty() {
        return String::new();
    }
    let v = chars_of(path);
    let p = strip_query_string(&v);
    match last_char(&p, '.') {
        Some(i) => string_of_range(&p, i, p.len()),
        None => String::new(),
    }
}

/// The file name without its last extension.
pub fn main_filename(file_name: &str) -> (r: String)
    ensures
        r@ == main_filename_spec(file_name@),
{
    let v = chars_of(file_name);
    match last_char(&v, '.') {
        Some(i) => string_of_range(&v, 0, i),
        None => string_of(&v),
    }
}

/// A character code with ASCII upper case folded to lower case.
fn fold(c: char) -> (r: u32)
    ensures
        r == fold_code(c),
{
    let x = c as u32;
    if 65 <= x && x <= 90 {
        x + 32
    } else {
        x
    }
}

/// Whether `a[lo..]` equals `b` up to ASCII case.
fn tail_eq_ignore_case(a: &Vec<char>, lo: usize, b: &Vec<char>) -> (r: bool)
    requires
        lo <= a@.len(),
        a@.len() - lo == b@.len(),
    ensures
        r == eq_ignore_ascii_case(a@.skip(lo as int), b@),
{
    let ghost t = a@.skip(lo as int);
    let n = a.len();
    let mut i: usize = 0;
    while i < b.len()
        invariant
            n == a@.len(),
            lo <= a@.len(),
            a@.len() - lo == b@.len(),
            t == a@.skip(lo as int),
            i <= b@.len(),
            forall|j: int| 0 <= j < i ==> fold_code(t[j]) == fold_code(b@[j]),
        decreases b@.len() - i,
    {
        if fold(a[lo + i]) != fold(b[i]) {
            assert(t[i as int] == a@[lo + i]);
            return false;
        }
        i = i + 1;
    }
    true
}

/// The last component of the path (query and trailing separator ignored),
/// with `ext_name` removed from its end when it matches up to ASCII case.
pub fn basename(path: &str, ext_name: &str) -> (r: String)
    requires
        basename_cut_ok(path@, ext_name@),
    ensures
        r@ == basename_spec(path@, ext_name@),
{
    let v = chars_of(path);
    let q = strip_query_string(&v);
    let c = remove_last_slash(q);
    let clen = c.len();
    let mut base: Vec<char> = Vec::new();
    match find_last_sep(&c) {
        Some(i) => {
            push_range(&mut base, &c, i + 1, c.len());
        },
        None => {
            push_range(&mut base, &c, 0, c.len());
            assert(c@.subrange(0, c@.len() as int) == c@);
        },
    }
    assert(base@ == base_of(path@));
    let ext = chars_of(ext_name);
    let base_string = string_of(&base);
    let base_bytes = base_string.as_str().as_bytes().len();
    let ext_bytes = ext_name.as_bytes().len();
    if ext.len() > 0 && ext_bytes < base_bytes && ext.len() <= base.len() {
        let cut = base.len() - ext.len();
        if tail_eq_ignore_case(&base, cut, &ext) {
            return string_of_range(&base, 0, cut);
        }
    }
    base_string
}

/// Everything before the last separator, without a trailing separator.
pub fn dirname(path: &str) -> (r: String)
    ensures
        r@ == dirname_spec(path@),
{
    let v = chars_of(path);
    match find_last_sep(&v) {
        Some(i) => {
            let mut head: Vec<char> = Vec::new();
            push_range(&mut head, &v, 0, i);
            let head = remove_last_slash(head);
            string_of(&head)
        },
        None => String::new(),
    }
}

/// The path with its last extension replaced by `ext_name`; a path without
/// extension gets `ext_name` appended. The query string is kept.
pub fn change_extname(path: &str, ext_name: &str) -> (r: String)
    ensures
        r@ == change_extname_spec(path@, ext_name@),
{
    let v = chars_of(path);
    let (p, query) = split_query_string(&v);
    let mut out = String::new();
    match last_char(&p, '.') {
        Some(i) => {
            append_range(&mut out, &p, 0, i);
        },
        None => {
            append_all(&mut out, &p);
            assert(p@.subrange(0, p@.len() as int) == p@);
        },
    }
    out.append(ext_name);
    append_all(&mut out, &query);
    out
}

/// The path with its base name replaced by `base_name`, keeping the old
/// extension when `is_same_ext` holds; a name starting with `.` replaces
/// the extension only. The query string is kept.
pub fn change_basename(path: &str, base_name: &str, is_same_ext: bool) -> (r: String)
    ensures
        r@ == change_basename_spec(path@, base_name@, is_same_ext),
{
    let name = chars_of(base_name);
    if name.len() > 0 && name[0] == '.' {
        return change_extname(path, base_name);
    }
    let v = chars_of(path);
    let (p, query) = split_query_string(&v);
    let plen = p.len();
    let mut out = String::new();
    match find_last_sep(&p) {
        Some(i) => {
            if i > 0 {
                append_range(&mut out, &p, 0, i + 1);
            } else {
                push_char(&mut out, '/');
            }
        },
        None => {},
    }
    assert(out@ == dir_prefix(p@));
    out.append(base_name);
    if is_same_ext {
        let p_string = string_of(&p);
        let ext = extname(p_string.as_str());
        out.append(ext.as_str());
    }
    append_all(&mut out, &query);
    out
}

/// Applies one resolution step to a character vector.
fn normalize_once(u: &Vec<char>) -> (r: Vec<char>)
    ensures
        r@ == normalize_step(u@),
{
    let idx = match first_triple(u, '.', '.', '/') {
        Some(i) => Some(i),
        None => first_triple(u, '.', '.', '\\'),
    };
    proof {
        lemma_up_ref(u@);
    }
    let n = u.len();
    let mut out: Vec<char> = Vec::new();
    match idx {
        None => {
            push_range(&mut out, u, 0, u.len());
            assert(u@.subrange(0, u@.len() as int) == u@);
        },
        Some(idx) => {
            if idx > 0 {
                let ps = last_sep_before(u, idx);
                proof {
                    lemma_last_match(u@.take(idx as int), sep_pred());
                    assert(u@.subrange(0, idx as int) == u@.take(idx as int));
                }
                let pts = match ps {
                    Some(ps) => {
                        if ps > 0 {
                            proof {
                                assert(u@.subrange(0, ps as int) == u@.take(ps as int));
                            }
                            last_sep_before(u, ps)
                        } else {
                            None
                        }
                    },
                    None => None,
                };
                match pts {
                    Some(pts) => {
                        proof {
                            lemma_last_match(u@.take(ps.unwrap() as int), sep_pred());
                        }
                        push_range(&mut out, u, 0, pts);
                        out.push('/');
                        push_range(&mut out, u, idx + 3, u.len());
                    },
                    None => {
                        push_range(&mut out, u, idx + 3, u.len());
                    },
                }
            } else {
                push_range(&mut out, u, 3, u.len());
            }
        },
    }
    out
}

/// Resolves `../` (and `..\`) references: each cancels the directory before
/// it, and one with no directory before it is dropped with the text that
/// precedes it. The result holds no parent reference, is no longer than
/// `url`, is its own normalization, and is `url` itself when `url` holds
/// no parent reference.
pub fn normalize(url: &str) -> (r: String)
    ensures
        r@ == normalize_spec(url@),
        forall|j: int| 0 <= j ==> !occurs_at(r@, up_slash(), j),
        forall|j: int| 0 <= j ==> !occurs_at(r@, up_backslash(), j),
        r@.len() <= url@.len(),
        normalize_spec(r@) == r@,
        up_ref(url@) < 0 ==> r@ == url@,
{
    let mut cur = chars_of(url);
    loop
        invariant
            normalize_spec(cur@) == normalize_spec(url@),
        decreases cur@.len(),
    {
        let old_len = cur.len();
        let next = normalize_once(&cur);
        proof {
            lemma_normalize_step(cur@);
        }
        if next.len() == old_len {
            proof {
                lemma_normalize_resolves(url@);
            }
            return string_of(&next);
        }
        cur = next;
    }
}

/// The path without one trailing separator.
pub fn strip_sep(path: &str) -> (r: String)
    ensures
        r@ == remove_last_sep(path@),
{
    let v = chars_of(path);
    let v = remove_last_slash(v);
    string_of(&v)
}

/// The separator paths are joined with.
pub fn get_separator() -> (r: char)
    ensures
        r == '/',
{
    '/'
}

} // verus!
