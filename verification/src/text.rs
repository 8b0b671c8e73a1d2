//! Character-level text helpers shared by the parsers and renderers.
use vstd::prelude::*;

verus! {

broadcast use vstd::string::group_string_axioms;

/// Appends one character to a `String` (std `String::push`).
#[verifier::external_body]
pub(crate) fn push_char(s: &mut String, c: char)
    ensures
        final(s)@ == old(s)@.push(c),
{
    s.push(c);
}

/// The characters of a string slice, in order.
pub fn chars_of(s: &str) -> (v: Vec<char>)
    ensures
        v@ == s@,
{
    let mut v: Vec<char> = Vec::new();
    for c in it: s.chars()
        invariant
            v@ == it.seq().take(it.index() as int),
            it.seq() == s@,
    {
        v.push(c);
    }
    v
}

/// Builds a `String` from a sequence of characters.
pub fn string_of(v: &[char]) -> (s: String)
    ensures
        s@ == v@,
{
    let mut s = String::new();
    let mut i: usize = 0;
    while i < v.len()
        invariant
            i <= v.len(),
            s@ == v@.take(i as int),
        decreases v.len() - i,
    {
        push_char(&mut s, v[i]);
        assert(v@.take(i + 1) == v@.take(i as int).push(v@[i as int]));
        i += 1;
    }
    assert(v@.take(v.len() as int) == v@);
    s
}

} // verus!

verus! {

// ---------------------------------------------------------------------------
// Character classes
// ---------------------------------------------------------------------------

/// Unicode `White_Space`, the class that `char::is_whitespace` tests.
pub open spec fn is_ws(c: char) -> bool {
    ||| ('\u{9}' <= c && c <= '\u{d}')
    ||| c == ' '
    ||| c == '\u{85}'
    ||| c == '\u{a0}'
    ||| c == '\u{1680}'
    ||| ('\u{2000}' <= c && c <= '\u{200a}')
    ||| c == '\u{2028}'
    ||| c == '\u{2029}'
    ||| c == '\u{202f}'
    ||| c == '\u{205f}'
    ||| c == '\u{3000}'
}

pub fn is_whitespace_char(c: char) -> (b: bool)
    ensures
        b == is_ws(c),
{
    ('\u{9}' <= c && c <= '\u{d}') || c == ' ' || c == '\u{85}' || c == '\u{a0}' || c == '\u{1680}'
        || ('\u{2000}' <= c && c <= '\u{200a}') || c == '\u{2028}' || c == '\u{2029}' || c
        == '\u{202f}' || c == '\u{205f}' || c == '\u{3000}'
}

/// The class that `u8::is_ascii_whitespace` tests: space, tab, line feed, form feed, carriage return.
pub open spec fn is_ascii_ws(c: char) -> bool {
    c == ' ' || c == '\t' || c == '\n' || c == '\u{c}' || c == '\r'
}

pub fn is_ascii_whitespace_char(c: char) -> (b: bool)
    ensures
        b == is_ascii_ws(c),
{
    c == ' ' || c == '\t' || c == '\n' || c == '\u{c}' || c == '\r'
}

/// ASCII lower-casing of one character; other characters are unchanged.
pub open spec fn lower_ascii(c: char) -> char {
    if 'A' <= c && c <= 'Z' {
        ((c as u32) + 32) as char
    } else {
        c
    }
}

pub fn to_lower_ascii(c: char) -> (r: char)
    ensures
        r == lower_ascii(c),
{
    if 'A' <= c && c <= 'Z' {
        let b: u8 = c as u8;
        (b + 32) as char
    } else {
        c
    }
}

/// ASCII lower-casing of a whole sequence.
pub open spec fn lower_seq(s: Seq<char>) -> Seq<char> {
    Seq::new(s.len(), |i: int| lower_ascii(s[i]))
}

// ---------------------------------------------------------------------------
// Prefixes, trimming
// ---------------------------------------------------------------------------

pub open spec fn starts_with(s: Seq<char>, p: Seq<char>) -> bool {
    p.len() <= s.len() && s.take(p.len() as int) == p
}

/// `s` holds `p` at position `i`.
pub open spec fn occurs_at(s: Seq<char>, p: Seq<char>, i: int) -> bool {
    0 <= i && i + p.len() <= s.len() && s.subrange(i, i + p.len()) == p
}

pub open spec fn contains_seq(s: Seq<char>, p: Seq<char>) -> bool {
    exists|i: int| occurs_at(s, p, i)
}

/// `s` without its leading whitespace (`str::trim_start`).
pub open spec fn trim_start(s: Seq<char>) -> Seq<char>
    decreases s.len(),
{
    if s.len() > 0 && is_ws(s[0]) {
        trim_start(s.drop_first())
    } else {
        s
    }
}

/// `s` without its trailing whitespace (`str::trim_end`).
pub open spec fn trim_end(s: Seq<char>) -> Seq<char>
    decreases s.len(),
{
    if s.len() > 0 && is_ws(s.last()) {
        trim_end(s.drop_last())
    } else {
        s
    }
}

/// `s` without leading and trailing whitespace (`str::trim`).
pub open spec fn trim(s: Seq<char>) -> Seq<char> {
    trim_end(trim_start(s))
}

pub proof fn lemma_trim_start_skip(s: Seq<char>, i: int)
    requires
        0 <= i <= s.len(),
        forall|j: int| 0 <= j < i ==> is_ws(#[trigger] s[j]),
    ensures
        trim_start(s) == trim_start(s.skip(i)),
    decreases i,
{
    if i > 0 {
        assert(s.skip(1) == s.drop_first());
        lemma_trim_start_skip(s.drop_first(), i - 1);
        assert(s.drop_first().skip(i - 1) == s.skip(i));
    } else {
        assert(s.skip(0) == s);
    }
}

pub proof fn lemma_trim_end_take(s: Seq<char>, j: int)
    requires
        0 <= j <= s.len(),
        forall|k: int| j <= k < s.len() ==> is_ws(#[trigger] s[k]),
    ensures
        trim_end(s) == trim_end(s.take(j)),
    decreases s.len() - j,
{
    if j < s.len() {
        assert(s.drop_last() == s.take(s.len() - 1));
        lemma_trim_end_take(s.drop_last(), j);
        assert(s.drop_last().take(j) == s.take(j));
    } else {
        assert(s.take(j) == s);
    }
}

/// The trimmed copy of `s[from..to]`.
pub fn trim_range(s: &[char], from: usize, to: usize) -> (r: Vec<char>)
    requires
        from <= to <= s.len(),
    ensures
        r@ == trim(s@.subrange(from as int, to as int)),
{
    let ghost t = s@.subrange(from as int, to as int);
    let mut i = from;
    while i < to && is_whitespace_char(s[i])
        invariant
            from <= i <= to <= s.len(),
            t == s@.subrange(from as int, to as int),
            forall|k: int| from <= k < i ==> is_ws(#[trigger] s@[k]),
        decreases to - i,
    {
        i += 1;
    }
    proof {
        assert forall|k: int| 0 <= k < i - from implies is_ws(#[trigger] t[k]) by {
            assert(t[k] == s@[from + k]);
        }
        lemma_trim_start_skip(t, i - from);
        assert(t.skip(i - from) == s@.subrange(i as int, to as int));
    }
    let mut j = to;
    while j > i && is_whitespace_char(s[j - 1])
        invariant
            from <= i <= j <= to <= s.len(),
            forall|k: int| j <= k < to ==> is_ws(#[trigger] s@[k]),
        decreases j - i,
    {
        j -= 1;
    }
    proof {
        let u = s@.subrange(i as int, to as int);
        assert forall|k: int| j - i <= k < u.len() implies is_ws(#[trigger] u[k]) by {
            assert(u[k] == s@[i + k]);
        }
        lemma_trim_end_take(u, j - i);
        assert(u.take(j - i) == s@.subrange(i as int, j as int));
        let w = s@.subrange(i as int, j as int);
        if w.len() > 0 {
            assert(w[0] == s@[i as int]);
            assert(w.last() == s@[j - 1]);
        }
        assert(trim_start(w) == w);
        assert(trim_end(w) == w);
    }
    copy_range(s, i, j)
}

/// A copy of `s[from..to]`.
pub fn copy_range(s: &[char], from: usize, to: usize) -> (r: Vec<char>)
    requires
        from <= to <= s.len(),
    ensures
        r@ == s@.subrange(from as int, to as int),
{
    let mut r: Vec<char> = Vec::new();
    let mut k = from;
    while k < to
        invariant
            from <= k <= to <= s.len(),
            r@ == s@.subrange(from as int, k as int),
        decreases to - k,
    {
        r.push(s[k]);
        k += 1;
    }
    r
}

/// Appends all of `src` to `dst`.
pub fn extend_chars(dst: &mut Vec<char>, src: &[char])
    ensures
        final(dst)@ == old(dst)@ + src@,
{
    let mut k: usize = 0;
    while k < src.len()
        invariant
            k <= src.len(),
            dst@ == old(dst)@ + src@.take(k as int),
        decreases src.len() - k,
    {
        dst.push(src[k]);
        assert(src@.take(k + 1) == src@.take(k as int).push(src@[k as int]));
        k += 1;
    }
    assert(src@.take(src.len() as int) == src@);
}

/// Whether `s` holds `p` at position `i`.
pub fn matches_at(s: &[char], p: &[char], i: usize) -> (b: bool)
    ensures
        b == occurs_at(s@, p@, i as int),
{
    if i > s.len() || p.len() > s.len() - i {
        return false;
    }
    let mut k: usize = 0;
    while k < p.len()
        invariant
            k <= p.len(),
            i + p.len() <= s.len(),
            forall|m: int| 0 <= m < k ==> s@[i + m] == p@[m],
        decreases p.len() - k,
    {
        if s[i + k] != p[k] {
            assert(s@.subrange(i as int, i + p.len())[k as int] != p@[k as int]);
            return false;
        }
        k += 1;
    }
    assert(s@.subrange(i as int, i + p.len()) == p@);
    true
}

pub fn seq_eq(a: &[char], b: &[char]) -> (r: bool)
    ensures
        r == (a@ == b@),
{
    if a.len() != b.len() {
        return false;
    }
    let r = matches_at(a, b, 0);
    proof {
        if r {
            assert(a@.subrange(0, b@.len() as int) == a@);
        }
        if a@ == b@ {
            assert(a@.subrange(0, b@.len() as int) == a@);
        }
    }
    r
}

// ---------------------------------------------------------------------------
// Replacement (`str::replace`)
// ---------------------------------------------------------------------------

/// Every non-overlapping occurrence of `p`, found from the left, replaced by `r`.
pub open spec fn replace_all(s: Seq<char>, p: Seq<char>, r: Seq<char>) -> Seq<char>
    decreases s.len(),
{
    if p.len() == 0 || s.len() < p.len() {
        s
    } else if s.take(p.len() as int) == p {
        r + replace_all(s.skip(p.len() as int), p, r)
    } else {
        seq![s[0]] + replace_all(s.skip(1), p, r)
    }
}

pub fn replace_all_chars(s: &[char], p: &[char], r: &[char]) -> (out: Vec<char>)
    requires
        p@.len() > 0,
    ensures
        out@ == replace_all(s@, p@, r@),
{
    let mut out: Vec<char> = Vec::new();
    let mut i: usize = 0;
    assert(s@.skip(0) == s@);
    while i < s.len()
        invariant
            i <= s.len(),
            p@.len() > 0,
            out@ + replace_all(s@.skip(i as int), p@, r@) == replace_all(s@, p@, r@),
        decreases s.len() - i,
    {
        let ghost rest = s@.skip(i as int);
        if matches_at(s, p, i) {
            proof {
                assert(rest.take(p@.len() as int) == s@.subrange(i as int, i + p@.len()));
                assert(rest.skip(p@.len() as int) == s@.skip(i + p@.len()));
                assert(out@ + r@ + replace_all(s@.skip(i + p@.len()), p@, r@) == out@ + (r@
                    + replace_all(s@.skip(i + p@.len()), p@, r@)));
            }
            extend_chars(&mut out, r);
            i += p.len();
        } else {
            proof {
                if rest.len() >= p@.len() {
                    assert(rest.take(p@.len() as int) == s@.subrange(i as int, i + p@.len()));
                    assert(rest.take(p@.len() as int) != p@);
                    assert(rest.skip(1) == s@.skip(i + 1));
                    assert(out@.push(s@[i as int]) + replace_all(s@.skip(i + 1), p@, r@) == out@
                        + (seq![rest[0]] + replace_all(rest.skip(1), p@, r@)));
                } else {
                    assert(rest.skip(1) == s@.skip(i + 1));
                    assert(replace_all(rest.skip(1), p@, r@) == rest.skip(1));
                    assert(rest == seq![rest[0]] + rest.skip(1));
                    assert(out@.push(s@[i as int]) + rest.skip(1) == out@ + rest);
                }
            }
            out.push(s[i]);
            i += 1;
        }
    }
    assert(s@.skip(i as int).len() == 0);
    assert(out@ + seq![] == out@);
    out
}

/// When the first character of `p` does not occur in `s`, replacement leaves `s` unchanged.
pub proof fn lemma_replace_absent(s: Seq<char>, p: Seq<char>, r: Seq<char>)
    requires
        p.len() > 0,
        forall|i: int| 0 <= i < s.len() ==> s[i] != p[0],
    ensures
        replace_all(s, p, r) == s,
    decreases s.len(),
{
    if s.len() >= p.len() {
        assert(s.take(p.len() as int)[0] != p[0]);
        lemma_replace_absent(s.skip(1), p, r);
        assert(s == seq![s[0]] + s.skip(1));
    }
}

} // verus!

verus! {

// ---------------------------------------------------------------------------
// Whitespace collapsing (`split_whitespace().join(" ")`)
// ---------------------------------------------------------------------------

/// Left fold behind `inline_norm`: the text so far, and whether a separator is owed
/// before the next word.
pub open spec fn collapse_ws(s: Seq<char>) -> (Seq<char>, bool)
    decreases s.len(),
{
    if s.len() == 0 {
        (seq![], false)
    } else {
        let (o, pending) = collapse_ws(s.drop_last());
        let c = s.last();
        if is_ws(c) {
            (o, o.len() > 0)
        } else if pending {
            (o.push(' ').push(c), false)
        } else {
            (o.push(c), false)
        }
    }
}

/// The words of `s` (maximal runs of non-whitespace) joined by single spaces.
pub open spec fn inline_norm(s: Seq<char>) -> Seq<char> {
    collapse_ws(s).0
}

/// Shape of a collapsed line: the only whitespace is a plain space standing between
/// two non-whitespace characters (so no leading, trailing or doubled whitespace).
pub open spec fn inline_shape(o: Seq<char>) -> bool {
    forall|i: int|
        0 <= i < o.len() && is_ws(#[trigger] o[i]) ==> {
            &&& o[i] == ' '
            &&& 0 < i < o.len() - 1
            &&& !is_ws(o[i - 1])
            &&& !is_ws(o[i + 1])
        }
}

pub proof fn lemma_collapse_shape(s: Seq<char>)
    ensures
        inline_shape(collapse_ws(s).0),
        collapse_ws(s).1 ==> collapse_ws(s).0.len() > 0,
    decreases s.len(),
{
    if s.len() > 0 {
        lemma_collapse_shape(s.drop_last());
        let (o, pending) = collapse_ws(s.drop_last());
        let c = s.last();
        if o.len() > 0 {
            assert(!is_ws(o[o.len() - 1]));
        }
        if !is_ws(c) {
            if pending {
                let n = o.push(' ').push(c);
                assert forall|i: int| 0 <= i < n.len() && is_ws(#[trigger] n[i]) implies {
                    &&& n[i] == ' '
                    &&& 0 < i < n.len() - 1
                    &&& !is_ws(n[i - 1])
                    &&& !is_ws(n[i + 1])
                } by {
                    if i < o.len() {
                        assert(n[i] == o[i]);
                        assert(n[i - 1] == o[i - 1]);
                        assert(n[i + 1] == o[i + 1]);
                    }
                }
            } else {
                let n = o.push(c);
                assert forall|i: int| 0 <= i < n.len() && is_ws(#[trigger] n[i]) implies {
                    &&& n[i] == ' '
                    &&& 0 < i < n.len() - 1
                    &&& !is_ws(n[i - 1])
                    &&& !is_ws(n[i + 1])
                } by {
                    assert(n[i] == o[i]);
                    assert(n[i - 1] == o[i - 1]);
                    assert(n[i + 1] == o[i + 1]);
                }
            }
        }
    }
}

/// Collapses the whitespace of `s[from..to]`: its words joined by single spaces.
pub fn normalize_inline_range(s: &[char], from: usize, to: usize) -> (r: Vec<char>)
    requires
        from <= to <= s.len(),
    ensures
        r@ == inline_norm(s@.subrange(from as int, to as int)),
        inline_shape(r@),
{
    let ghost t = s@.subrange(from as int, to as int);
    let mut out: Vec<char> = Vec::new();
    let mut pending = false;
    let mut k = from;
    assert(t.take(0) =~= seq![]);
    while k < to
        invariant
            from <= k <= to <= s.len(),
            t == s@.subrange(from as int, to as int),
            (out@, pending) == collapse_ws(t.take(k - from)),
        decreases to - k,
    {
        let c = s[k];
        proof {
            assert(t.take(k + 1 - from).drop_last() == t.take(k - from));
            assert(t.take(k + 1 - from).last() == c);
        }
        if is_whitespace_char(c) {
            pending = out.len() > 0;
        } else {
            if pending {
                out.push(' ');
            }
            out.push(c);
            pending = false;
        }
        k += 1;
    }
    assert(t.take(to - from) == t);
    proof {
        lemma_collapse_shape(t);
    }
    out
}

pub fn normalize_inline(s: &[char]) -> (r: Vec<char>)
    ensures
        r@ == inline_norm(s@),
        inline_shape(r@),
{
    assert(s@.subrange(0, s@.len() as int) == s@);
    normalize_inline_range(s, 0, s.len())
}

// ---------------------------------------------------------------------------
// Line normalization
// ---------------------------------------------------------------------------

/// `s` cut at every line feed; there is always at least one piece.
pub open spec fn split_lines(s: Seq<char>) -> Seq<Seq<char>>
    decreases s.len(),
{
    if s.len() == 0 {
        seq![seq![]]
    } else {
        let ps = split_lines(s.drop_last());
        let c = s.last();
        if c == '\n' {
            ps.push(seq![])
        } else {
            ps.update(ps.len() - 1, ps.last().push(c))
        }
    }
}

pub proof fn lemma_split_lines_nonempty(s: Seq<char>)
    ensures
        split_lines(s).len() >= 1,
    decreases s.len(),
{
    if s.len() > 0 {
        lemma_split_lines_nonempty(s.drop_last());
    }
}

/// Adds one raw line: its collapsed form, or a single blank line separating two
/// non-blank ones.
pub open spec fn add_line(ls: Seq<Seq<char>>, piece: Seq<char>) -> Seq<Seq<char>> {
    let l = inline_norm(piece);
    if l.len() == 0 {
        if ls.len() > 0 && ls.last().len() > 0 {
            ls.push(seq![])
        } else {
            ls
        }
    } else {
        ls.push(l)
    }
}

pub open spec fn gather_lines(ps: Seq<Seq<char>>) -> Seq<Seq<char>>
    decreases ps.len(),
{
    if ps.len() == 0 {
        seq![]
    } else {
        add_line(gather_lines(ps.drop_last()), ps.last())
    }
}

pub open spec fn drop_trailing_blank(ls: Seq<Seq<char>>) -> Seq<Seq<char>> {
    if ls.len() > 0 && ls.last().len() == 0 {
        ls.drop_last()
    } else {
        ls
    }
}

/// Lines joined with line feeds.
pub open spec fn join_lines(ls: Seq<Seq<char>>) -> Seq<char>
    decreases ls.len(),
{
    if ls.len() == 0 {
        seq![]
    } else if ls.len() == 1 {
        ls[0]
    } else {
        join_lines(ls.drop_last()) + seq!['\n'] + ls.last()
    }
}

/// The lines of a rendered text: each collapsed, runs of blank lines reduced to one,
/// no blank line at either end.
pub open spec fn rendered_lines(s: Seq<char>) -> Seq<Seq<char>> {
    drop_trailing_blank(gather_lines(split_lines(s)))
}

pub open spec fn normalize_rendered(s: Seq<char>) -> Seq<char> {
    join_lines(rendered_lines(s))
}

/// Lines that have been gathered: each collapsed; the first not blank; no two blank
/// lines in a row.
pub open spec fn gathered_ok(ls: Seq<Seq<char>>) -> bool {
    &&& forall|i: int| 0 <= i < ls.len() ==> inline_shape(#[trigger] ls[i])
    &&& ls.len() > 0 ==> ls[0].len() > 0
    &&& forall|i: int| 0 < i < ls.len() && (#[trigger] ls[i]).len() == 0 ==> ls[i - 1].len() > 0
}

/// Well-formed rendered lines: gathered, and the last line not blank either.
pub open spec fn lines_ok(ls: Seq<Seq<char>>) -> bool {
    &&& gathered_ok(ls)
    &&& ls.len() > 0 ==> ls.last().len() > 0
}

pub proof fn lemma_gather_ok(ps: Seq<Seq<char>>)
    ensures
        gathered_ok(gather_lines(ps)),
    decreases ps.len(),
{
    if ps.len() > 0 {
        lemma_gather_ok(ps.drop_last());
        lemma_collapse_shape(ps.last());
        let ls = gather_lines(ps.drop_last());
        let n = gather_lines(ps);
        assert(inline_shape(seq![]));
        assert forall|i: int| 0 <= i < n.len() implies inline_shape(#[trigger] n[i]) by {
            if i < ls.len() {
                assert(n[i] == ls[i]);
            }
        }
        assert forall|i: int| 0 < i < n.len() && (#[trigger] n[i]).len() == 0 implies n[i
            - 1].len() > 0 by {
            if i < ls.len() {
                assert(n[i] == ls[i]);
                assert(n[i - 1] == ls[i - 1]);
            }
        }
    }
}

pub proof fn lemma_rendered_lines_ok(s: Seq<char>)
    ensures
        lines_ok(rendered_lines(s)),
{
    let g = gather_lines(split_lines(s));
    lemma_gather_ok(split_lines(s));
    let r = rendered_lines(s);
    if g.len() > 0 && g.last().len() == 0 {
        assert forall|i: int| 0 <= i < r.len() implies inline_shape(#[trigger] r[i]) by {
            assert(r[i] == g[i]);
        }
        assert forall|i: int| 0 < i < r.len() && (#[trigger] r[i]).len() == 0 implies r[i
            - 1].len() > 0 by {
            assert(r[i] == g[i]);
            assert(r[i - 1] == g[i - 1]);
        }
        if r.len() > 0 {
            assert(r.last() == g[g.len() - 2]);
        }
    }
}

fn add_line_exec(lines: &mut Vec<Vec<char>>, Ghost(g): Ghost<Seq<Seq<char>>>, piece: &[char]) -> (ng: Ghost<Seq<Seq<char>>>)
    requires
        old(lines)@.len() == g.len(),
        forall|i: int| 0 <= i < g.len() ==> (#[trigger] old(lines)@[i])@ == g[i],
    ensures
        ng@ == add_line(g, piece@),
        final(lines)@.len() == ng@.len(),
        forall|i: int| 0 <= i < ng@.len() ==> (#[trigger] final(lines)@[i])@ == ng@[i],
{
    let l = normalize_inline(piece);
    if l.len() == 0 {
        let n = lines.len();
        if n > 0 && lines[n - 1].len() > 0 {
            lines.push(Vec::new());
            let ghost ng = g.push(seq![]);
            assert forall|i: int| 0 <= i < ng.len() implies (#[trigger] lines@[i])@ == ng[i] by {
                if i < g.len() {
                    assert(lines@[i] == old(lines)@[i]);
                }
            }
            Ghost(ng)
        } else {
            Ghost(g)
        }
    } else {
        let ghost lv = l@;
        lines.push(l);
        let ghost ng = g.push(lv);
        assert forall|i: int| 0 <= i < ng.len() implies (#[trigger] lines@[i])@ == ng[i] by {
            if i < g.len() {
                assert(lines@[i] == old(lines)@[i]);
            }
        }
        Ghost(ng)
    }
}

/// Collapses each line, keeps at most one blank line between non-blank ones and none at
/// either end, and joins the lines with line feeds.
/// No line feed in `s`.
pub open spec fn no_line_feed(s: Seq<char>) -> bool {
    forall|i: int| 0 <= i < s.len() ==> #[trigger] s[i] != '\n'
}

proof fn lemma_split_lines_append(p: Seq<char>, y: Seq<char>)
    requires
        no_line_feed(y),
    ensures
        split_lines(p + y) == split_lines(p).update(
            split_lines(p).len() - 1,
            split_lines(p).last() + y,
        ),
    decreases y.len(),
{
    lemma_split_lines_nonempty(p);
    let ps = split_lines(p);
    if y.len() == 0 {
        assert(p + y =~= p);
        assert(ps.last() + y =~= ps.last());
        assert(ps.update(ps.len() - 1, ps.last() + y) =~= ps);
    } else {
        let y0 = y.drop_last();
        let c = y.last();
        assert(y[y.len() - 1] != '\n');
        assert forall|i: int| 0 <= i < y0.len() implies #[trigger] y0[i] != '\n' by {
            assert(y0[i] == y[i]);
        }
        lemma_split_lines_append(p, y0);
        assert((p + y).drop_last() =~= p + y0);
        assert((p + y).last() == c);
        let q = ps.update(ps.len() - 1, ps.last() + y0);
        assert(split_lines(p + y) == q.update(q.len() - 1, q.last().push(c)));
        assert((ps.last() + y0).push(c) =~= ps.last() + y);
        assert(q.update(q.len() - 1, q.last().push(c)) =~= ps.update(
            ps.len() - 1,
            ps.last() + y,
        ));
    }
}

proof fn lemma_split_joined(ls: Seq<Seq<char>>)
    requires
        ls.len() >= 1,
        forall|i: int| 0 <= i < ls.len() ==> no_line_feed(#[trigger] ls[i]),
    ensures
        split_lines(join_lines(ls)) == ls,
    decreases ls.len(),
{
    if ls.len() == 1 {
        lemma_split_lines_append(seq![], ls[0]);
        assert(seq![] + ls[0] =~= ls[0]);
        assert(split_lines(seq![]).update(0, seq![] + ls[0]) =~= ls);
    } else {
        let front = ls.drop_last();
        assert forall|i: int| 0 <= i < front.len() implies no_line_feed(#[trigger] front[i]) by {
            assert(front[i] == ls[i]);
        }
        lemma_split_joined(front);
        let x = join_lines(front);
        let p = x + seq!['\n'];
        assert(no_line_feed(ls[ls.len() - 1]));
        lemma_split_lines_append(p, ls.last());
        assert(p.drop_last() =~= x);
        assert(split_lines(p) == front.push(seq![]));
        assert(join_lines(ls) == p + ls.last());
        assert(front.push(seq![]).update(front.len() as int, seq![] + ls.last()) =~= ls);
    }
}

proof fn lemma_collapse_prefix(o: Seq<char>, k: int)
    requires
        inline_shape(o),
        0 <= k <= o.len(),
    ensures
        collapse_ws(o.take(k)) == (if k > 0 && is_ws(o[k - 1]) {
            (o.take(k - 1), true)
        } else {
            (o.take(k), false)
        }),
    decreases k,
{
    if k > 0 {
        lemma_collapse_prefix(o, k - 1);
        assert(o.take(k).drop_last() =~= o.take(k - 1));
        assert(o.take(k).last() == o[k - 1]);
        let c = o[k - 1];
        if is_ws(c) {
            assert(0 < k - 1 && !is_ws(o[k - 2]));
        } else if k > 1 && is_ws(o[k - 2]) {
            assert(o[k - 2] == ' ');
            assert(o.take(k - 2).push(' ').push(c) =~= o.take(k));
        } else {
            assert(o.take(k - 1).push(c) =~= o.take(k));
        }
    }
}

/// A collapsed line is left as it is by collapsing it again.
pub proof fn lemma_inline_norm_shaped(o: Seq<char>)
    requires
        inline_shape(o),
    ensures
        inline_norm(o) == o,
{
    lemma_collapse_prefix(o, o.len() as int);
    assert(o.take(o.len() as int) =~= o);
    if o.len() > 0 && is_ws(o[o.len() - 1]) {
        assert(o.len() - 1 < o.len() - 1);
    }
}

proof fn lemma_gather_gathered(ls: Seq<Seq<char>>)
    requires
        gathered_ok(ls),
    ensures
        gather_lines(ls) == ls,
    decreases ls.len(),
{
    if ls.len() > 0 {
        let front = ls.drop_last();
        assert forall|i: int| 0 <= i < front.len() implies inline_shape(#[trigger] front[i]) by {
            assert(front[i] == ls[i]);
        }
        assert forall|i: int| 0 < i < front.len() && (#[trigger] front[i]).len() == 0 implies front[i
            - 1].len() > 0 by {
            assert(front[i] == ls[i]);
            assert(front[i - 1] == ls[i - 1]);
        }
        if front.len() > 0 {
            assert(front[0] == ls[0]);
        }
        lemma_gather_gathered(front);
        let last = ls[ls.len() - 1];
        assert(inline_shape(last));
        lemma_inline_norm_shaped(last);
        if last.len() == 0 {
            assert(ls.len() > 1);
            assert(front.last() == ls[ls.len() - 2]);
        }
        assert(front.push(last) =~= ls);
    }
}

proof fn lemma_shape_no_line_feed(o: Seq<char>)
    requires
        inline_shape(o),
    ensures
        no_line_feed(o),
{
    assert forall|i: int| 0 <= i < o.len() implies #[trigger] o[i] != '\n' by {
        if o[i] == '\n' {
            assert(is_ws(o[i]));
        }
    }
}

/// Joining well-formed lines and normalizing the text gives back the same lines.
pub proof fn lemma_rendered_of_joined(ls: Seq<Seq<char>>)
    requires
        lines_ok(ls),
    ensures
        rendered_lines(join_lines(ls)) == ls,
{
    if ls.len() == 0 {
        let e: Seq<char> = seq![];
        assert(split_lines(e) == seq![e]);
        assert(seq![e].drop_last() =~= Seq::<Seq<char>>::empty());
        assert(gather_lines(seq![e]) == add_line(gather_lines(Seq::<Seq<char>>::empty()), e));
        assert(inline_norm(e) == e);
        assert(gather_lines(seq![e]) =~= Seq::<Seq<char>>::empty());
    } else {
        assert forall|i: int| 0 <= i < ls.len() implies no_line_feed(#[trigger] ls[i]) by {
            lemma_shape_no_line_feed(ls[i]);
        }
        lemma_split_joined(ls);
        lemma_gather_gathered(ls);
    }
}

/// Normalizing rendered text twice gives the same text as normalizing it once: the
/// result's lines are already collapsed, it has no blank line at either end, and no two
/// blank lines in a row.
pub proof fn law_normalize_rendered_idempotent(s: Seq<char>)
    ensures
        normalize_rendered(normalize_rendered(s)) == normalize_rendered(s),
        lines_ok(rendered_lines(s)),
        forall|i: int|
            0 <= i < rendered_lines(s).len() ==> inline_norm(#[trigger] rendered_lines(s)[i])
                == rendered_lines(s)[i],
        rendered_lines(s).len() > 0 ==> split_lines(normalize_rendered(s)) == rendered_lines(s),
{
    let ls = rendered_lines(s);
    lemma_rendered_lines_ok(s);
    lemma_rendered_of_joined(ls);
    assert forall|i: int| 0 <= i < ls.len() implies inline_norm(#[trigger] ls[i]) == ls[i] by {
        lemma_inline_norm_shaped(ls[i]);
    }
    if ls.len() > 0 {
        assert forall|i: int| 0 <= i < ls.len() implies no_line_feed(#[trigger] ls[i]) by {
            lemma_shape_no_line_feed(ls[i]);
        }
        lemma_split_joined(ls);
    }
}

pub fn normalize_rendered_text(s: &[char]) -> (r: Vec<char>)
    ensures
        r@ == normalize_rendered(s@),
        lines_ok(rendered_lines(s@)),
{
    let mut lines: Vec<Vec<char>> = Vec::new();
    let mut cur: Vec<char> = Vec::new();
    let ghost mut g: Seq<Seq<char>> = seq![];
    let mut i: usize = 0;
    assert(s@.take(0) =~= seq![]);
    while i < s.len()
        invariant
            i <= s.len(),
            lines@.len() == g.len(),
            forall|k: int| 0 <= k < g.len() ==> (#[trigger] lines@[k])@ == g[k],
            g == gather_lines(split_lines(s@.take(i as int)).drop_last()),
            cur@ == split_lines(s@.take(i as int)).last(),
        decreases s.len() - i,
    {
        let ghost pre = s@.take(i as int);
        proof {
            assert(s@.take(i + 1).drop_last() == pre);
            assert(s@.take(i + 1).last() == s@[i as int]);
            lemma_split_lines_nonempty(pre);
        }
        if s[i] == '\n' {
            let ng = add_line_exec(&mut lines, Ghost(g), &cur);
            proof {
                let ps = split_lines(pre);
                assert(ps.drop_last().push(ps.last()) == ps);
                assert(split_lines(s@.take(i + 1)).drop_last() == ps);
                g = ng@;
            }
            cur = Vec::new();
        } else {
            cur.push(s[i]);
            proof {
                let ps = split_lines(pre);
                assert(split_lines(s@.take(i + 1)).drop_last() == ps.drop_last());
            }
        }
        i += 1;
    }
    proof {
        assert(s@.take(s@.len() as int) == s@);
        lemma_split_lines_nonempty(s@);
        let ps = split_lines(s@);
        assert(ps.drop_last().push(ps.last()) == ps);
    }
    let ng = add_line_exec(&mut lines, Ghost(g), &cur);
    proof {
        g = ng@;
    }
    let n = lines.len();
    if n > 0 && lines[n - 1].len() == 0 {
        lines.pop();
        proof {
            g = g.drop_last();
        }
    }
    assert(g == rendered_lines(s@));
    let mut out: Vec<char> = Vec::new();
    let mut k: usize = 0;
    while k < lines.len()
        invariant
            k <= lines@.len(),
            lines@.len() == g.len(),
            forall|m: int| 0 <= m < g.len() ==> (#[trigger] lines@[m])@ == g[m],
            out@ == join_lines(g.take(k as int)),
        decreases lines.len() - k,
    {
        assert(g.take(k + 1).drop_last() == g.take(k as int));
        assert(g.take(k + 1).last() == g[k as int]);
        if k > 0 {
            out.push('\n');
        }
        extend_chars(&mut out, lines[k].as_slice());
        if k == 0 {
            assert(out@ == g[0]);
        }
        k += 1;
    }
    assert(g.take(g.len() as int) == g);
    proof {
        lemma_rendered_lines_ok(s@);
    }
    out
}

} // verus!

verus! {

// ---------------------------------------------------------------------------
// Scanning
// ---------------------------------------------------------------------------

/// A character that may stand in an HTML attribute name: ASCII letters and digits,
/// `-`, `_` and `:`.
pub open spec fn is_attr_name_char(c: char) -> bool {
    ('a' <= c && c <= 'z') || ('A' <= c && c <= 'Z') || ('0' <= c && c <= '9') || c == '-' || c
        == '_' || c == ':'
}

pub fn attr_name_char(c: char) -> (b: bool)
    ensures
        b == is_attr_name_char(c),
{
    ('a' <= c && c <= 'z') || ('A' <= c && c <= 'Z') || ('0' <= c && c <= '9') || c == '-' || c
        == '_' || c == ':'
}

/// Where a forward scan stops.
#[derive(Clone, Copy)]
pub enum Stop {
    /// at the first character that is not ASCII whitespace
    NotAsciiWs,
    /// at the first ASCII whitespace
    AsciiWs,
    /// at the first character that cannot stand in an attribute name
    NotAttrName,
    /// at the first occurrence of the given character
    Char,
    /// at the first whitespace or `/`
    WsOrSlash,
    /// at the first character other than `/`
    NotSlash,
    /// at the first character other than the given one
    NotChar,
    /// at the first character that is not whitespace
    NotWs,
}

pub open spec fn stops(kind: Stop, q: char, c: char) -> bool {
    match kind {
        Stop::NotAsciiWs => !is_ascii_ws(c),
        Stop::AsciiWs => is_ascii_ws(c),
        Stop::NotAttrName => !is_attr_name_char(c),
        Stop::Char => c == q,
        Stop::WsOrSlash => is_ws(c) || c == '/',
        Stop::NotSlash => c != '/',
        Stop::NotChar => c != q,
        Stop::NotWs => !is_ws(c),
    }
}

/// The first position at or after `i` where the scan stops, or the end of `a`.
pub open spec fn scan(a: Seq<char>, i: int, kind: Stop, q: char) -> int
    decreases a.len() - i,
{
    if i < 0 || i >= a.len() {
        i
    } else if stops(kind, q, a[i]) {
        i
    } else {
        scan(a, i + 1, kind, q)
    }
}

pub proof fn lemma_scan(a: Seq<char>, i: int, kind: Stop, q: char)
    requires
        0 <= i <= a.len(),
    ensures
        i <= scan(a, i, kind, q) <= a.len(),
        scan(a, i, kind, q) < a.len() ==> stops(kind, q, a[scan(a, i, kind, q)]),
        forall|k: int| i <= k < scan(a, i, kind, q) ==> !stops(kind, q, #[trigger] a[k]),
    decreases a.len() - i,
{
    if i < a.len() && !stops(kind, q, a[i]) {
        lemma_scan(a, i + 1, kind, q);
    }
}

fn stops_exec(kind: Stop, q: char, c: char) -> (b: bool)
    ensures
        b == stops(kind, q, c),
{
    match kind {
        Stop::NotAsciiWs => !is_ascii_whitespace_char(c),
        Stop::AsciiWs => is_ascii_whitespace_char(c),
        Stop::NotAttrName => !attr_name_char(c),
        Stop::Char => c == q,
        Stop::WsOrSlash => is_whitespace_char(c) || c == '/',
        Stop::NotSlash => c != '/',
        Stop::NotChar => c != q,
        Stop::NotWs => !is_whitespace_char(c),
    }
}

pub fn scan_exec(a: &[char], i: usize, kind: Stop, q: char) -> (j: usize)
    requires
        i <= a.len(),
    ensures
        j == scan(a@, i as int, kind, q),
        i <= j <= a.len(),
{
    let mut j = i;
    while j < a.len() && !stops_exec(kind, q, a[j])
        invariant
            i <= j <= a.len(),
            scan(a@, i as int, kind, q) == scan(a@, j as int, kind, q),
        decreases a.len() - j,
    {
        j += 1;
    }
    j
}

/// Whether `a[from..to]` and `b` agree up to ASCII case (`str::eq_ignore_ascii_case`).
pub fn eq_ignore_ascii_case_range(a: &[char], from: usize, to: usize, b: &[char]) -> (r: bool)
    requires
        from <= to <= a.len(),
    ensures
        r == (lower_seq(a@.subrange(from as int, to as int)) == lower_seq(b@)),
{
    let ghost x = a@.subrange(from as int, to as int);
    if to - from != b.len() {
        proof {
            assert(lower_seq(x).len() != lower_seq(b@).len());
        }
        return false;
    }
    let mut k: usize = 0;
    while k < b.len()
        invariant
            k <= b.len(),
            to - from == b.len(),
            from <= to <= a.len(),
            x == a@.subrange(from as int, to as int),
            forall|m: int| 0 <= m < k ==> lower_ascii(x[m]) == lower_ascii(b@[m]),
        decreases b.len() - k,
    {
        if to_lower_ascii(a[from + k]) != to_lower_ascii(b[k]) {
            proof {
                assert(x[k as int] == a@[from + k]);
                assert(lower_seq(x)[k as int] != lower_seq(b@)[k as int]);
            }
            return false;
        }
        k += 1;
    }
    assert(lower_seq(x) =~= lower_seq(b@));
    true
}

/// ASCII lower-case copy of `a[from..to]`.
pub fn lower_range(a: &[char], from: usize, to: usize) -> (r: Vec<char>)
    requires
        from <= to <= a.len(),
    ensures
        r@ == lower_seq(a@.subrange(from as int, to as int)),
{
    let mut r: Vec<char> = Vec::new();
    let mut k = from;
    while k < to
        invariant
            from <= k <= to <= a.len(),
            r@ == lower_seq(a@.subrange(from as int, k as int)),
        decreases to - k,
    {
        r.push(to_lower_ascii(a[k]));
        k += 1;
        assert(r@ =~= lower_seq(a@.subrange(from as int, k as int)));
    }
    r
}

} // verus!

verus! {

/// The first position at or after `i` where `p` occurs in `s`.
pub open spec fn find_from(s: Seq<char>, p: Seq<char>, i: int) -> Option<int>
    decreases s.len() + 1 - i,
{
    if i < 0 || i + p.len() > s.len() {
        None
    } else if occurs_at(s, p, i) {
        Some(i)
    } else {
        find_from(s, p, i + 1)
    }
}

pub proof fn lemma_find_from(s: Seq<char>, p: Seq<char>, i: int)
    requires
        0 <= i,
    ensures
        find_from(s, p, i) matches Some(k) ==> i <= k && occurs_at(s, p, k),
        find_from(s, p, i) matches Some(k) ==> forall|m: int| i <= m < k ==> !occurs_at(s, p, m),
        find_from(s, p, i) is None ==> forall|m: int| i <= m ==> !occurs_at(s, p, m),
    decreases s.len() + 1 - i,
{
    if i + p.len() <= s.len() && !occurs_at(s, p, i) {
        lemma_find_from(s, p, i + 1);
    }
}

/// `str::find`: the first position of `p` in `s`.
pub fn find_chars(s: &[char], p: &[char]) -> (r: Option<usize>)
    ensures
        r matches Some(k) ==> find_from(s@, p@, 0) == Some(k as int),
        r is None ==> find_from(s@, p@, 0) is None,
{
    find_chars_from(s, p, 0)
}

/// `str::contains`: whether `p` occurs in `s`.
pub fn contains_text(s: &str, p: &[char]) -> (r: bool)
    ensures
        r == contains_seq(s@, p@),
{
    let v = chars_of(s);
    let found = find_chars(&v, p);
    proof {
        lemma_find_from(v@, p@, 0);
    }
    found.is_some()
}

/// The first position at or after `from` where `p` occurs in `s`.
pub fn find_chars_from(s: &[char], p: &[char], from: usize) -> (r: Option<usize>)
    ensures
        r matches Some(k) ==> find_from(s@, p@, from as int) == Some(k as int),
        r is None ==> find_from(s@, p@, from as int) is None,
{
    if p.len() > s.len() || from > s.len() - p.len() {
        return None;
    }
    let last = s.len() - p.len();
    let mut i: usize = from;
    loop
        invariant
            p.len() <= s.len(),
            last == s.len() - p.len(),
            from <= i <= last,
            find_from(s@, p@, from as int) == find_from(s@, p@, i as int),
        decreases last - i,
    {
        if matches_at(s, p, i) {
            return Some(i);
        }
        if i == last {
            assert(find_from(s@, p@, i + 1) is None);
            return None;
        }
        i += 1;
    }
}

} // verus!

verus! {

// ---------------------------------------------------------------------------
// Splitting, ordering, decimal text
// ---------------------------------------------------------------------------

/// `str::split(sep)`: the pieces between separators; always at least one.
pub open spec fn split_on(s: Seq<char>, sep: char) -> Seq<Seq<char>>
    decreases s.len(),
{
    if s.len() == 0 {
        seq![seq![]]
    } else {
        let ps = split_on(s.drop_last(), sep);
        if s.last() == sep {
            ps.push(seq![])
        } else {
            ps.update(ps.len() - 1, ps.last().push(s.last()))
        }
    }
}

pub proof fn lemma_split_on_nonempty(s: Seq<char>, sep: char)
    ensures
        split_on(s, sep).len() >= 1,
    decreases s.len(),
{
    if s.len() > 0 {
        lemma_split_on_nonempty(s.drop_last(), sep);
    }
}

pub fn split_on_chars(s: &[char], sep: char) -> (r: Vec<Vec<char>>)
    ensures
        r@.len() == split_on(s@, sep).len(),
        forall|i: int| 0 <= i < r@.len() ==> (#[trigger] r@[i])@ == split_on(s@, sep)[i],
{
    let mut r: Vec<Vec<char>> = Vec::new();
    let mut cur: Vec<char> = Vec::new();
    let mut i: usize = 0;
    assert(s@.take(0) =~= seq![]);
    while i < s.len()
        invariant
            i <= s.len(),
            r@.len() + 1 == split_on(s@.take(i as int), sep).len(),
            forall|k: int| 0 <= k < r@.len() ==> (#[trigger] r@[k])@ == split_on(s@.take(i as int), sep)[k],
            cur@ == split_on(s@.take(i as int), sep).last(),
        decreases s.len() - i,
    {
        let ghost pre = s@.take(i as int);
        proof {
            assert(s@.take(i + 1).drop_last() == pre);
            assert(s@.take(i + 1).last() == s@[i as int]);
            lemma_split_on_nonempty(pre, sep);
        }
        if s[i] == sep {
            let ghost old_r = r@;
            r.push(cur);
            cur = Vec::new();
            assert forall|k: int| 0 <= k < r@.len() implies (#[trigger] r@[k])@ == split_on(s@.take(i + 1), sep)[k] by {
                if k < old_r.len() {
                    assert(r@[k] == old_r[k]);
                }
            }
        } else {
            cur.push(s[i]);
        }
        i += 1;
    }
    assert(s@.take(s@.len() as int) == s@);
    let ghost old_r = r@;
    r.push(cur);
    proof {
        lemma_split_on_nonempty(s@, sep);
        assert forall|k: int| 0 <= k < r@.len() implies (#[trigger] r@[k])@ == split_on(s@, sep)[k] by {
            if k < old_r.len() {
                assert(r@[k] == old_r[k]);
            }
        }
    }
    r
}

/// `a <= b` for texts, comparing characters in order (the order of `str`'s `Ord`, since
/// UTF-8 preserves code point order).
pub open spec fn lex_le(a: Seq<char>, b: Seq<char>) -> bool
    decreases a.len(),
{
    if a.len() == 0 {
        true
    } else if b.len() == 0 {
        false
    } else if a[0] != b[0] {
        (a[0] as u32) < (b[0] as u32)
    } else {
        lex_le(a.drop_first(), b.drop_first())
    }
}

pub proof fn lemma_lex_total(a: Seq<char>, b: Seq<char>)
    ensures
        lex_le(a, b) || lex_le(b, a),
    decreases a.len(),
{
    if a.len() > 0 && b.len() > 0 {
        if a[0] == b[0] {
            lemma_lex_total(a.drop_first(), b.drop_first());
        } else {
            vstd::utf8::char_u32_cast(a[0], a[0] as u32);
            vstd::utf8::char_u32_cast(b[0], b[0] as u32);
        }
    }
}

pub proof fn lemma_lex_trans(a: Seq<char>, b: Seq<char>, c: Seq<char>)
    requires
        lex_le(a, b),
        lex_le(b, c),
    ensures
        lex_le(a, c),
    decreases a.len(),
{
    if a.len() > 0 && b.len() > 0 && c.len() > 0 && a[0] == b[0] && b[0] == c[0] {
        lemma_lex_trans(a.drop_first(), b.drop_first(), c.drop_first());
    }
}

pub fn lex_le_exec(a: &[char], b: &[char]) -> (r: bool)
    ensures
        r == lex_le(a@, b@),
{
    let mut k: usize = 0;
    assert(a@.skip(0) == a@);
    assert(b@.skip(0) == b@);
    while k < a.len() && k < b.len() && a[k] == b[k]
        invariant
            k <= a.len(),
            k <= b.len(),
            lex_le(a@, b@) == lex_le(a@.skip(k as int), b@.skip(k as int)),
        decreases a.len() - k,
    {
        assert(a@.skip(k as int).drop_first() == a@.skip(k + 1));
        assert(b@.skip(k as int).drop_first() == b@.skip(k + 1));
        k += 1;
    }
    if k == a.len() {
        return true;
    }
    if k == b.len() {
        return false;
    }
    (a[k] as u32) < (b[k] as u32)
}

pub open spec fn digit_char(d: int) -> char {
    ((d + 0x30) as u8) as char
}

/// Decimal digits of a natural number, without leading zeros.
pub open spec fn nat_text(n: nat) -> Seq<char>
    decreases n,
{
    if n < 10 {
        seq![digit_char(n as int)]
    } else {
        nat_text(n / 10).push(digit_char((n % 10) as int))
    }
}

/// `format!("{}", v)` for an integer.
pub open spec fn int_text(v: int) -> Seq<char> {
    if v < 0 {
        seq!['-'] + nat_text((-v) as nat)
    } else {
        nat_text(v as nat)
    }
}

pub fn nat_text_exec(n: u64) -> (r: Vec<char>)
    ensures
        r@ == nat_text(n as nat),
    decreases n,
{
    let d = (n % 10) as u8;
    let c = (d + 0x30) as char;
    if n < 10 {
        vec![c]
    } else {
        let mut v = nat_text_exec(n / 10);
        v.push(c);
        v
    }
}

pub fn int_text_exec(v: i64) -> (r: Vec<char>)
    ensures
        r@ == int_text(v as int),
{
    if v < 0 {
        let m: u64 = if v == i64::MIN {
            9223372036854775808u64
        } else {
            (-v) as u64
        };
        let mut r = vec!['-'];
        let t = nat_text_exec(m);
        extend_chars(&mut r, &t);
        r
    } else {
        nat_text_exec(v as u64)
    }
}

} // verus!
