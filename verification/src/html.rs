//! Rendering of the HTML that Learn returns: entity decoding, tags turned into plain-text
//! structure, links written out with their targets.
use vstd::prelude::*;
use crate::text::{
    chars_of, copy_range, eq_ignore_ascii_case_range, extend_chars, inline_norm,
    lemma_replace_absent, lemma_scan, lower_range, lower_seq, normalize_inline, normalize_rendered,
    normalize_rendered_text, replace_all, replace_all_chars, scan, scan_exec, seq_eq, string_of,
    trim, trim_range, Stop, lines_ok, rendered_lines, lemma_rendered_lines_ok, is_ws,
};

verus! {

/// The entity replaced by pass `i` of `decode`, in the order the passes run;
/// `&amp;` comes last so that `&amp;lt;` decodes to `&lt;` and no further.
pub open spec fn entity_name(i: int) -> Seq<char> {
    if i == 0 {
        seq!['&', 'l', 't', ';']
    } else if i == 1 {
        seq!['&', 'g', 't', ';']
    } else if i == 2 {
        seq!['&', 'q', 'u', 'o', 't', ';']
    } else if i == 3 {
        seq!['&', '#', '3', '9', ';']
    } else if i == 4 {
        seq!['&', 'n', 'b', 's', 'p', ';']
    } else if i == 5 {
        seq!['&', 'l', 'd', 'q', 'u', 'o', ';']
    } else if i == 6 {
        seq!['&', 'r', 'd', 'q', 'u', 'o', ';']
    } else if i == 7 {
        seq!['&', 'l', 's', 'q', 'u', 'o', ';']
    } else if i == 8 {
        seq!['&', 'r', 's', 'q', 'u', 'o', ';']
    } else if i == 9 {
        seq!['&', 'm', 'd', 'a', 's', 'h', ';']
    } else if i == 10 {
        seq!['&', 'h', 'e', 'l', 'l', 'i', 'p', ';']
    } else if i == 11 {
        seq!['&', 'm', 'i', 'd', 'd', 'o', 't', ';']
    } else {
        seq!['&', 'a', 'm', 'p', ';']
    }
}

/// The text that pass `i` of `decode` puts in place of `entity_name(i)`.
pub open spec fn entity_text(i: int) -> Seq<char> {
    if i == 0 {
        seq!['<']
    } else if i == 1 {
        seq!['>']
    } else if i == 2 {
        seq!['"']
    } else if i == 3 {
        seq!['\'']
    } else if i == 4 {
        seq![' ']
    } else if i == 5 {
        seq!['\u{201c}']
    } else if i == 6 {
        seq!['\u{201d}']
    } else if i == 7 {
        seq!['\u{2018}']
    } else if i == 8 {
        seq!['\u{2019}']
    } else if i == 9 {
        seq!['\u{2014}']
    } else if i == 10 {
        seq!['\u{2026}']
    } else if i == 11 {
        seq!['\u{b7}']
    } else {
        seq!['&']
    }
}

pub open spec fn entity_count() -> int {
    13
}

fn entity(i: usize) -> (r: (Vec<char>, Vec<char>))
    requires
        i < 13,
    ensures
        r.0@ == entity_name(i as int),
        r.1@ == entity_text(i as int),
{
    if i == 0 {
        (vec!['&', 'l', 't', ';'], vec!['<'])
    } else if i == 1 {
        (vec!['&', 'g', 't', ';'], vec!['>'])
    } else if i == 2 {
        (vec!['&', 'q', 'u', 'o', 't', ';'], vec!['"'])
    } else if i == 3 {
        (vec!['&', '#', '3', '9', ';'], vec!['\''])
    } else if i == 4 {
        (vec!['&', 'n', 'b', 's', 'p', ';'], vec![' '])
    } else if i == 5 {
        (vec!['&', 'l', 'd', 'q', 'u', 'o', ';'], vec!['\u{201c}'])
    } else if i == 6 {
        (vec!['&', 'r', 'd', 'q', 'u', 'o', ';'], vec!['\u{201d}'])
    } else if i == 7 {
        (vec!['&', 'l', 's', 'q', 'u', 'o', ';'], vec!['\u{2018}'])
    } else if i == 8 {
        (vec!['&', 'r', 's', 'q', 'u', 'o', ';'], vec!['\u{2019}'])
    } else if i == 9 {
        (vec!['&', 'm', 'd', 'a', 's', 'h', ';'], vec!['\u{2014}'])
    } else if i == 10 {
        (vec!['&', 'h', 'e', 'l', 'l', 'i', 'p', ';'], vec!['\u{2026}'])
    } else if i == 11 {
        (vec!['&', 'm', 'i', 'd', 'd', 'o', 't', ';'], vec!['\u{b7}'])
    } else {
        (vec!['&', 'a', 'm', 'p', ';'], vec!['&'])
    }
}

/// Names of the HTML elements rendered as separate blocks.
pub open spec fn block_tag_name(i: int) -> Seq<char> {
    if i == 0 {
        seq!['a', 'd', 'd', 'r', 'e', 's', 's']
    } else if i == 1 {
        seq!['a', 'r', 't', 'i', 'c', 'l', 'e']
    } else if i == 2 {
        seq!['a', 's', 'i', 'd', 'e']
    } else if i == 3 {
        seq!['b', 'l', 'o', 'c', 'k', 'q', 'u', 'o', 't', 'e']
    } else if i == 4 {
        seq!['d', 'i', 'v']
    } else if i == 5 {
        seq!['d', 'l']
    } else if i == 6 {
        seq!['f', 'i', 'e', 'l', 'd', 's', 'e', 't']
    } else if i == 7 {
        seq!['f', 'i', 'g', 'c', 'a', 'p', 't', 'i', 'o', 'n']
    } else if i == 8 {
        seq!['f', 'i', 'g', 'u', 'r', 'e']
    } else if i == 9 {
        seq!['f', 'o', 'o', 't', 'e', 'r']
    } else if i == 10 {
        seq!['f', 'o', 'r', 'm']
    } else if i == 11 {
        seq!['h', '1']
    } else if i == 12 {
        seq!['h', '2']
    } else if i == 13 {
        seq!['h', '3']
    } else if i == 14 {
        seq!['h', '4']
    } else if i == 15 {
        seq!['h', '5']
    } else if i == 16 {
        seq!['h', '6']
    } else if i == 17 {
        seq!['h', 'e', 'a', 'd', 'e', 'r']
    } else if i == 18 {
        seq!['m', 'a', 'i', 'n']
    } else if i == 19 {
        seq!['o', 'l']
    } else if i == 20 {
        seq!['p']
    } else if i == 21 {
        seq!['p', 'r', 'e']
    } else if i == 22 {
        seq!['s', 'e', 'c', 't', 'i', 'o', 'n']
    } else if i == 23 {
        seq!['t', 'a', 'b', 'l', 'e']
    } else if i == 24 {
        seq!['t', 'b', 'o', 'd', 'y']
    } else if i == 25 {
        seq!['t', 'd']
    } else if i == 26 {
        seq!['t', 'f', 'o', 'o', 't']
    } else if i == 27 {
        seq!['t', 'h']
    } else if i == 28 {
        seq!['t', 'h', 'e', 'a', 'd']
    } else if i == 29 {
        seq!['t', 'r']
    } else {
        seq!['u', 'l']
    }
}

pub open spec fn block_tag_count() -> int {
    31
}

fn block_tag(i: usize) -> (r: Vec<char>)
    requires
        i < 31,
    ensures
        r@ == block_tag_name(i as int),
{
    if i == 0 {
        vec!['a', 'd', 'd', 'r', 'e', 's', 's']
    } else if i == 1 {
        vec!['a', 'r', 't', 'i', 'c', 'l', 'e']
    } else if i == 2 {
        vec!['a', 's', 'i', 'd', 'e']
    } else if i == 3 {
        vec!['b', 'l', 'o', 'c', 'k', 'q', 'u', 'o', 't', 'e']
    } else if i == 4 {
        vec!['d', 'i', 'v']
    } else if i == 5 {
        vec!['d', 'l']
    } else if i == 6 {
        vec!['f', 'i', 'e', 'l', 'd', 's', 'e', 't']
    } else if i == 7 {
        vec!['f', 'i', 'g', 'c', 'a', 'p', 't', 'i', 'o', 'n']
    } else if i == 8 {
        vec!['f', 'i', 'g', 'u', 'r', 'e']
    } else if i == 9 {
        vec!['f', 'o', 'o', 't', 'e', 'r']
    } else if i == 10 {
        vec!['f', 'o', 'r', 'm']
    } else if i == 11 {
        vec!['h', '1']
    } else if i == 12 {
        vec!['h', '2']
    } else if i == 13 {
        vec!['h', '3']
    } else if i == 14 {
        vec!['h', '4']
    } else if i == 15 {
        vec!['h', '5']
    } else if i == 16 {
        vec!['h', '6']
    } else if i == 17 {
        vec!['h', 'e', 'a', 'd', 'e', 'r']
    } else if i == 18 {
        vec!['m', 'a', 'i', 'n']
    } else if i == 19 {
        vec!['o', 'l']
    } else if i == 20 {
        vec!['p']
    } else if i == 21 {
        vec!['p', 'r', 'e']
    } else if i == 22 {
        vec!['s', 'e', 'c', 't', 'i', 'o', 'n']
    } else if i == 23 {
        vec!['t', 'a', 'b', 'l', 'e']
    } else if i == 24 {
        vec!['t', 'b', 'o', 'd', 'y']
    } else if i == 25 {
        vec!['t', 'd']
    } else if i == 26 {
        vec!['t', 'f', 'o', 'o', 't']
    } else if i == 27 {
        vec!['t', 'h']
    } else if i == 28 {
        vec!['t', 'h', 'e', 'a', 'd']
    } else if i == 29 {
        vec!['t', 'r']
    } else {
        vec!['u', 'l']
    }
}

/// The text after the first `n` replacement passes of `decode`.
pub open spec fn decode_passes(s: Seq<char>, n: int) -> Seq<char>
    decreases n,
{
    if n <= 0 {
        s
    } else {
        replace_all(decode_passes(s, n - 1), entity_name(n - 1), entity_text(n - 1))
    }
}

/// What `decode` returns: all replacement passes, then `trim`.
pub open spec fn decode_spec(s: Seq<char>) -> Seq<char> {
    trim(decode_passes(s, entity_count()))
}

pub fn decode_chars(s: &[char]) -> (r: Vec<char>)
    ensures
        r@ == decode_spec(s@),
{
    let mut cur = copy_range(s, 0, s.len());
    assert(s@.subrange(0, s@.len() as int) == s@);
    let mut i: usize = 0;
    while i < 13
        invariant
            i <= 13,
            cur@ == decode_passes(s@, i as int),
        decreases 13 - i,
    {
        let (p, r) = entity(i);
        cur = replace_all_chars(&cur, &p, &r);
        i += 1;
    }
    assert(cur@.subrange(0, cur@.len() as int) == cur@);
    assert(entity_count() == 13);
    trim_range(&cur, 0, cur.len())
}

/// Decodes the HTML entities that Learn emits, then trims surrounding whitespace.
pub fn decode(s: &str) -> (r: String)
    ensures
        r@ == decode_spec(s@),
{
    let v = chars_of(s);
    let d = decode_chars(&v);
    string_of(&d)
}

/// Text with no `&` holds no entity: decoding only trims it.
pub proof fn law_plain_text_decodes_to_itself_trimmed(s: Seq<char>)
    requires
        forall|i: int| 0 <= i < s.len() ==> s[i] != '&',
    ensures
        decode_spec(s) == trim(s),
{
    lemma_decode_passes_plain(s, entity_count());
}

/// No `&` in `s`.
pub open spec fn no_ampersand(s: Seq<char>) -> bool {
    forall|i: int| 0 <= i < s.len() ==> #[trigger] s[i] != '&'
}

proof fn lemma_entity_shape(i: int)
    requires
        0 <= i < entity_count(),
    ensures
        entity_name(i).len() >= 2,
        entity_name(i)[0] == '&',
        entity_name(i)[entity_name(i).len() - 1] == ';',
        forall|k: int| 1 <= k < entity_name(i).len() ==> #[trigger] entity_name(i)[k] != '&',
        forall|k: int| 0 <= k < entity_name(i).len() - 1 ==> #[trigger] entity_name(i)[k] != ';',
        i < entity_count() - 1 ==> no_ampersand(entity_text(i)),
{
}

proof fn lemma_entity_names_distinct(i: int, j: int)
    requires
        0 <= i < entity_count(),
        0 <= j < entity_count(),
        i != j,
    ensures
        entity_name(i) != entity_name(j),
{
    if entity_name(i) == entity_name(j) {
        assert(entity_name(i).len() == entity_name(j).len());
        assert(entity_name(i)[1] == entity_name(j)[1]);
        assert(entity_name(i)[2] == entity_name(j)[2]);
    }
}

proof fn lemma_replace_skip_plain(a: Seq<char>, x: Seq<char>, p: Seq<char>, r: Seq<char>)
    requires
        p.len() > 0,
        p[0] == '&',
        no_ampersand(a),
    ensures
        replace_all(a + x, p, r) == a + replace_all(x, p, r),
    decreases a.len(),
{
    if a.len() > 0 {
        let s = a + x;
        if s.len() >= p.len() {
            assert(s.take(p.len() as int)[0] == a[0]);
            assert(s.take(p.len() as int) != p);
            assert(s.skip(1) =~= a.skip(1) + x);
            lemma_replace_skip_plain(a.skip(1), x, p, r);
            assert(a =~= seq![a[0]] + a.skip(1));
        } else {
            assert(x.len() < p.len());
            assert(replace_all(x, p, r) == x);
        }
    } else {
        assert(a + x =~= x);
    }
}

proof fn lemma_replace_other_entity(e: Seq<char>, b: Seq<char>, p: Seq<char>, r: Seq<char>, i: int, n: int)
    requires
        0 <= i < entity_count(),
        0 <= n < entity_count(),
        i != n,
        e == entity_name(i),
        p == entity_name(n),
        no_ampersand(b),
    ensures
        replace_all(e + b, p, r) == e + b,
{
    lemma_entity_shape(i);
    lemma_entity_shape(n);
    lemma_entity_names_distinct(i, n);
    let s = e + b;
    let m = p.len() as int;
    if s.len() >= m {
        if m <= e.len() {
            if s.take(m) == p {
                assert(e[m - 1] == s.take(m)[m - 1]);
                if m < e.len() {
                    assert(e[m - 1] != ';');
                }
                assert(e =~= p);
            }
        } else {
            if s.take(m) == p {
                assert(s.take(m)[e.len() - 1] == e[e.len() - 1]);
                assert(p[e.len() - 1] != ';');
            }
        }
        assert(s.take(m) != p);
        let t = s.skip(1);
        assert forall|k: int| 0 <= k < t.len() implies #[trigger] t[k] != '&' by {
            if k + 1 < e.len() {
                assert(t[k] == e[k + 1]);
            } else {
                assert(t[k] == b[k + 1 - e.len()]);
            }
        }
        lemma_replace_absent(t, p, r);
        assert(s =~= seq![s[0]] + t);
    }
}

proof fn lemma_decode_passes_one(a: Seq<char>, b: Seq<char>, i: int, n: int)
    requires
        no_ampersand(a),
        no_ampersand(b),
        0 <= i < entity_count(),
        0 <= n <= entity_count(),
    ensures
        decode_passes(a + entity_name(i) + b, n) == if n <= i {
            a + entity_name(i) + b
        } else {
            a + entity_text(i) + b
        },
    decreases n,
{
    if n > 0 {
        lemma_decode_passes_one(a, b, i, n - 1);
        let p = entity_name(n - 1);
        let r = entity_text(n - 1);
        lemma_entity_shape(n - 1);
        lemma_entity_shape(i);
        let e = entity_name(i);
        if n - 1 < i {
            assert(a + e + b =~= a + (e + b));
            lemma_replace_skip_plain(a, e + b, p, r);
            lemma_replace_other_entity(e, b, p, r, i, n - 1);
        } else if n - 1 == i {
            assert(a + e + b =~= a + (e + b));
            lemma_replace_skip_plain(a, e + b, p, r);
            assert((e + b).take(e.len() as int) =~= e);
            assert((e + b).skip(e.len() as int) =~= b);
            lemma_replace_absent(b, p, r);
            assert(a + (r + b) =~= a + r + b);
        } else {
            let t = a + entity_text(i) + b;
            assert forall|k: int| 0 <= k < t.len() implies #[trigger] t[k] != p[0] by {
                if k < a.len() {
                    assert(t[k] == a[k]);
                } else if k < a.len() + entity_text(i).len() {
                    assert(t[k] == entity_text(i)[k - a.len()]);
                } else {
                    assert(t[k] == b[k - a.len() - entity_text(i).len()]);
                }
            }
            lemma_replace_absent(t, p, r);
        }
    }
}

/// Decoding text that holds one entity and no other `&` puts that entity's character in
/// its place (then trims): `&lt;` `<`, `&gt;` `>`, `&quot;` `"`, `&#39;` `'`, `&nbsp;` a
/// space, `&ldquo;` `“`, `&rdquo;` `”`, `&lsquo;` `‘`, `&rsquo;` `’`, `&mdash;` `—`,
/// `&hellip;` `…`, `&middot;` `·`, and `&amp;` `&`.
pub proof fn law_decode_entity_characters(a: Seq<char>, b: Seq<char>)
    requires
        no_ampersand(a),
        no_ampersand(b),
    ensures
        decode_spec(a + seq!['&', 'l', 't', ';'] + b) == trim(a + seq!['<'] + b),
        decode_spec(a + seq!['&', 'g', 't', ';'] + b) == trim(a + seq!['>'] + b),
        decode_spec(a + seq!['&', 'q', 'u', 'o', 't', ';'] + b) == trim(a + seq!['"'] + b),
        decode_spec(a + seq!['&', '#', '3', '9', ';'] + b) == trim(a + seq!['\''] + b),
        decode_spec(a + seq!['&', 'n', 'b', 's', 'p', ';'] + b) == trim(a + seq![' '] + b),
        decode_spec(a + seq!['&', 'l', 'd', 'q', 'u', 'o', ';'] + b) == trim(a + seq!['\u{201c}'] + b),
        decode_spec(a + seq!['&', 'r', 'd', 'q', 'u', 'o', ';'] + b) == trim(a + seq!['\u{201d}'] + b),
        decode_spec(a + seq!['&', 'l', 's', 'q', 'u', 'o', ';'] + b) == trim(a + seq!['\u{2018}'] + b),
        decode_spec(a + seq!['&', 'r', 's', 'q', 'u', 'o', ';'] + b) == trim(a + seq!['\u{2019}'] + b),
        decode_spec(a + seq!['&', 'm', 'd', 'a', 's', 'h', ';'] + b) == trim(a + seq!['\u{2014}'] + b),
        decode_spec(a + seq!['&', 'h', 'e', 'l', 'l', 'i', 'p', ';'] + b) == trim(
            a + seq!['\u{2026}'] + b,
        ),
        decode_spec(a + seq!['&', 'm', 'i', 'd', 'd', 'o', 't', ';'] + b) == trim(
            a + seq!['\u{b7}'] + b,
        ),
        decode_spec(a + seq!['&', 'a', 'm', 'p', ';'] + b) == trim(a + seq!['&'] + b),
{
    lemma_decode_passes_one(a, b, 0, entity_count());
    lemma_decode_passes_one(a, b, 1, entity_count());
    lemma_decode_passes_one(a, b, 2, entity_count());
    lemma_decode_passes_one(a, b, 3, entity_count());
    lemma_decode_passes_one(a, b, 4, entity_count());
    lemma_decode_passes_one(a, b, 5, entity_count());
    lemma_decode_passes_one(a, b, 6, entity_count());
    lemma_decode_passes_one(a, b, 7, entity_count());
    lemma_decode_passes_one(a, b, 8, entity_count());
    lemma_decode_passes_one(a, b, 9, entity_count());
    lemma_decode_passes_one(a, b, 10, entity_count());
    lemma_decode_passes_one(a, b, 11, entity_count());
    lemma_decode_passes_one(a, b, 12, entity_count());
}

proof fn lemma_decode_passes_escaped(a: Seq<char>, b: Seq<char>, i: int, n: int)
    requires
        no_ampersand(a),
        no_ampersand(b),
        0 <= i < entity_count() - 1,
        0 <= n <= entity_count(),
    ensures
        decode_passes(a + entity_name(12) + entity_name(i).skip(1) + b, n) == if n <= 12 {
            a + entity_name(12) + entity_name(i).skip(1) + b
        } else {
            a + entity_name(i) + b
        },
    decreases n,
{
    lemma_entity_shape(i);
    lemma_entity_shape(12);
    let e = entity_name(i);
    let amp = entity_name(12);
    let tb = e.skip(1) + b;
    assert forall|k: int| 0 <= k < tb.len() implies #[trigger] tb[k] != '&' by {
        if k < e.len() - 1 {
            assert(tb[k] == e[k + 1]);
        } else {
            assert(tb[k] == b[k - (e.len() - 1)]);
        }
    }
    if n > 0 {
        lemma_decode_passes_escaped(a, b, i, n - 1);
        let p = entity_name(n - 1);
        let r = entity_text(n - 1);
        lemma_entity_shape(n - 1);
        assert(a + amp + e.skip(1) + b =~= a + (amp + tb));
        lemma_replace_skip_plain(a, amp + tb, p, r);
        if n - 1 < 12 {
            lemma_replace_other_entity(amp, tb, p, r, 12, n - 1);
        } else {
            assert((amp + tb).take(amp.len() as int) =~= amp);
            assert((amp + tb).skip(amp.len() as int) =~= tb);
            lemma_replace_absent(tb, p, r);
            assert(a + (seq!['&'] + tb) =~= a + e + b);
        }
    }
}

/// `&amp;` is decoded last: an escaped entity (`&amp;` followed by an entity's name, as in
/// `&amp;nbsp;`) decodes to the entity itself and no further.
pub proof fn law_decode_escaped_entities(a: Seq<char>, b: Seq<char>)
    requires
        no_ampersand(a),
        no_ampersand(b),
    ensures
        decode_spec(a + seq!['&', 'a', 'm', 'p', ';', 'l', 't', ';'] + b) == trim(
            a + seq!['&', 'l', 't', ';'] + b,
        ),
        decode_spec(a + seq!['&', 'a', 'm', 'p', ';', 'g', 't', ';'] + b) == trim(
            a + seq!['&', 'g', 't', ';'] + b,
        ),
        decode_spec(a + seq!['&', 'a', 'm', 'p', ';', 'q', 'u', 'o', 't', ';'] + b) == trim(
            a + seq!['&', 'q', 'u', 'o', 't', ';'] + b,
        ),
        decode_spec(a + seq!['&', 'a', 'm', 'p', ';', '#', '3', '9', ';'] + b) == trim(
            a + seq!['&', '#', '3', '9', ';'] + b,
        ),
        decode_spec(a + seq!['&', 'a', 'm', 'p', ';', 'n', 'b', 's', 'p', ';'] + b) == trim(
            a + seq!['&', 'n', 'b', 's', 'p', ';'] + b,
        ),
        decode_spec(a + seq!['&', 'a', 'm', 'p', ';', 'l', 'd', 'q', 'u', 'o', ';'] + b) == trim(
            a + seq!['&', 'l', 'd', 'q', 'u', 'o', ';'] + b,
        ),
        decode_spec(a + seq!['&', 'a', 'm', 'p', ';', 'r', 'd', 'q', 'u', 'o', ';'] + b) == trim(
            a + seq!['&', 'r', 'd', 'q', 'u', 'o', ';'] + b,
        ),
        decode_spec(a + seq!['&', 'a', 'm', 'p', ';', 'l', 's', 'q', 'u', 'o', ';'] + b) == trim(
            a + seq!['&', 'l', 's', 'q', 'u', 'o', ';'] + b,
        ),
        decode_spec(a + seq!['&', 'a', 'm', 'p', ';', 'r', 's', 'q', 'u', 'o', ';'] + b) == trim(
            a + seq!['&', 'r', 's', 'q', 'u', 'o', ';'] + b,
        ),
        decode_spec(a + seq!['&', 'a', 'm', 'p', ';', 'm', 'd', 'a', 's', 'h', ';'] + b) == trim(
            a + seq!['&', 'm', 'd', 'a', 's', 'h', ';'] + b,
        ),
        decode_spec(a + seq!['&', 'a', 'm', 'p', ';', 'h', 'e', 'l', 'l', 'i', 'p', ';'] + b) == trim(
            a + seq!['&', 'h', 'e', 'l', 'l', 'i', 'p', ';'] + b,
        ),
        decode_spec(a + seq!['&', 'a', 'm', 'p', ';', 'm', 'i', 'd', 'd', 'o', 't', ';'] + b) == trim(
            a + seq!['&', 'm', 'i', 'd', 'd', 'o', 't', ';'] + b,
        ),
{
    assert(decode_spec(a + seq!['&', 'a', 'm', 'p', ';', 'l', 't', ';'] + b) == trim(a + seq!['&', 'l', 't', ';'] + b)) by {
        lemma_decode_passes_escaped(a, b, 0, entity_count());
        assert(a + entity_name(12) + entity_name(0).skip(1) + b =~= a + seq!['&', 'a', 'm', 'p', ';', 'l', 't', ';'] + b);
    }
    assert(decode_spec(a + seq!['&', 'a', 'm', 'p', ';', 'g', 't', ';'] + b) == trim(a + seq!['&', 'g', 't', ';'] + b)) by {
        lemma_decode_passes_escaped(a, b, 1, entity_count());
        assert(a + entity_name(12) + entity_name(1).skip(1) + b =~= a + seq!['&', 'a', 'm', 'p', ';', 'g', 't', ';'] + b);
    }
    assert(decode_spec(a + seq!['&', 'a', 'm', 'p', ';', 'q', 'u', 'o', 't', ';'] + b) == trim(a + seq!['&', 'q', 'u', 'o', 't', ';'] + b)) by {
        lemma_decode_passes_escaped(a, b, 2, entity_count());
        assert(a + entity_name(12) + entity_name(2).skip(1) + b =~= a + seq!['&', 'a', 'm', 'p', ';', 'q', 'u', 'o', 't', ';'] + b);
    }
    assert(decode_spec(a + seq!['&', 'a', 'm', 'p', ';', '#', '3', '9', ';'] + b) == trim(a + seq!['&', '#', '3', '9', ';'] + b)) by {
        lemma_decode_passes_escaped(a, b, 3, entity_count());
        assert(a + entity_name(12) + entity_name(3).skip(1) + b =~= a + seq!['&', 'a', 'm', 'p', ';', '#', '3', '9', ';'] + b);
    }
    assert(decode_spec(a + seq!['&', 'a', 'm', 'p', ';', 'n', 'b', 's', 'p', ';'] + b) == trim(a + seq!['&', 'n', 'b', 's', 'p', ';'] + b)) by {
        lemma_decode_passes_escaped(a, b, 4, entity_count());
        assert(a + entity_name(12) + entity_name(4).skip(1) + b =~= a + seq!['&', 'a', 'm', 'p', ';', 'n', 'b', 's', 'p', ';'] + b);
    }
    assert(decode_spec(a + seq!['&', 'a', 'm', 'p', ';', 'l', 'd', 'q', 'u', 'o', ';'] + b) == trim(a + seq!['&', 'l', 'd', 'q', 'u', 'o', ';'] + b)) by {
        lemma_decode_passes_escaped(a, b, 5, entity_count());
        assert(a + entity_name(12) + entity_name(5).skip(1) + b =~= a + seq!['&', 'a', 'm', 'p', ';', 'l', 'd', 'q', 'u', 'o', ';'] + b);
    }
    assert(decode_spec(a + seq!['&', 'a', 'm', 'p', ';', 'r', 'd', 'q', 'u', 'o', ';'] + b) == trim(a + seq!['&', 'r', 'd', 'q', 'u', 'o', ';'] + b)) by {
        lemma_decode_passes_escaped(a, b, 6, entity_count());
        assert(a + entity_name(12) + entity_name(6).skip(1) + b =~= a + seq!['&', 'a', 'm', 'p', ';', 'r', 'd', 'q', 'u', 'o', ';'] + b);
    }
    assert(decode_spec(a + seq!['&', 'a', 'm', 'p', ';', 'l', 's', 'q', 'u', 'o', ';'] + b) == trim(a + seq!['&', 'l', 's', 'q', 'u', 'o', ';'] + b)) by {
        lemma_decode_passes_escaped(a, b, 7, entity_count());
        assert(a + entity_name(12) + entity_name(7).skip(1) + b =~= a + seq!['&', 'a', 'm', 'p', ';', 'l', 's', 'q', 'u', 'o', ';'] + b);
    }
    assert(decode_spec(a + seq!['&', 'a', 'm', 'p', ';', 'r', 's', 'q', 'u', 'o', ';'] + b) == trim(a + seq!['&', 'r', 's', 'q', 'u', 'o', ';'] + b)) by {
        lemma_decode_passes_escaped(a, b, 8, entity_count());
        assert(a + entity_name(12) + entity_name(8).skip(1) + b =~= a + seq!['&', 'a', 'm', 'p', ';', 'r', 's', 'q', 'u', 'o', ';'] + b);
    }
    assert(decode_spec(a + seq!['&', 'a', 'm', 'p', ';', 'm', 'd', 'a', 's', 'h', ';'] + b) == trim(a + seq!['&', 'm', 'd', 'a', 's', 'h', ';'] + b)) by {
        lemma_decode_passes_escaped(a, b, 9, entity_count());
        assert(a + entity_name(12) + entity_name(9).skip(1) + b =~= a + seq!['&', 'a', 'm', 'p', ';', 'm', 'd', 'a', 's', 'h', ';'] + b);
    }
    assert(decode_spec(a + seq!['&', 'a', 'm', 'p', ';', 'h', 'e', 'l', 'l', 'i', 'p', ';'] + b) == trim(a + seq!['&', 'h', 'e', 'l', 'l', 'i', 'p', ';'] + b)) by {
        lemma_decode_passes_escaped(a, b, 10, entity_count());
        assert(a + entity_name(12) + entity_name(10).skip(1) + b =~= a + seq!['&', 'a', 'm', 'p', ';', 'h', 'e', 'l', 'l', 'i', 'p', ';'] + b);
    }
    assert(decode_spec(a + seq!['&', 'a', 'm', 'p', ';', 'm', 'i', 'd', 'd', 'o', 't', ';'] + b) == trim(a + seq!['&', 'm', 'i', 'd', 'd', 'o', 't', ';'] + b)) by {
        lemma_decode_passes_escaped(a, b, 11, entity_count());
        assert(a + entity_name(12) + entity_name(11).skip(1) + b =~= a + seq!['&', 'a', 'm', 'p', ';', 'm', 'i', 'd', 'd', 'o', 't', ';'] + b);
    }
}

proof fn lemma_decode_passes_plain(s: Seq<char>, n: int)
    requires
        forall|i: int| 0 <= i < s.len() ==> s[i] != '&',
        n <= entity_count(),
    ensures
        decode_passes(s, n) == s,
    decreases n,
{
    if n > 0 {
        lemma_decode_passes_plain(s, n - 1);
        lemma_replace_absent(s, entity_name(n - 1), entity_text(n - 1));
    }
}

} // verus!

verus! {

// ---------------------------------------------------------------------------
// Element classes and attributes
// ---------------------------------------------------------------------------

pub open spec fn is_block_tag(name: Seq<char>) -> bool {
    exists|i: int| 0 <= i < block_tag_count() && block_tag_name(i) == name
}

pub fn is_block_tag_chars(name: &[char]) -> (b: bool)
    ensures
        b == is_block_tag(name@),
{
    let mut i: usize = 0;
    while i < 31
        invariant
            i <= 31,
            block_tag_count() == 31,
            forall|k: int| 0 <= k < i ==> block_tag_name(k) != name@,
        decreases 31 - i,
    {
        let t = block_tag(i);
        if seq_eq(&t, name) {
            return true;
        }
        i += 1;
    }
    false
}

/// Whether `name` (already lower-case) is an element rendered as its own block.
pub fn is_block_html_tag(name: &str) -> (b: bool)
    ensures
        b == is_block_tag(name@),
{
    let v = chars_of(name);
    is_block_tag_chars(&v)
}

/// The value of the attribute `name` in an attribute list, scanning from position `i`:
/// `key=value`, `key="value"` or `key='value'`, keys compared without ASCII case, the
/// first matching key winning, the value entity-decoded and trimmed.
pub open spec fn attr_scan(a: Seq<char>, name: Seq<char>, i: int) -> Option<Seq<char>>
    decreases a.len() - i,
{
    if i < 0 || i >= a.len() {
        None
    } else {
        let k0 = scan(a, i, Stop::NotAsciiWs, ' ');
        let k1 = scan(a, k0, Stop::NotAttrName, ' ');
        proof {
            lemma_scan(a, i, Stop::NotAsciiWs, ' ');
            lemma_scan(a, k0, Stop::NotAttrName, ' ');
        }
        if k1 == k0 {
            if k0 >= a.len() {
                None
            } else {
                attr_scan(a, name, k0 + 1)
            }
        } else {
            let k2 = scan(a, k1, Stop::NotAsciiWs, ' ');
            proof {
                lemma_scan(a, k1, Stop::NotAsciiWs, ' ');
            }
            if k2 >= a.len() || a[k2] != '=' {
                attr_scan(a, name, k2)
            } else {
                let k3 = scan(a, k2 + 1, Stop::NotAsciiWs, ' ');
                proof {
                    lemma_scan(a, k2 + 1, Stop::NotAsciiWs, ' ');
                }
                let quoted = k3 < a.len() && (a[k3] == '"' || a[k3] == '\'');
                let e = if quoted {
                    scan(a, k3 + 1, Stop::Char, a[k3])
                } else {
                    scan(a, k3, Stop::AsciiWs, ' ')
                };
                let value = if quoted {
                    a.subrange(k3 + 1, e)
                } else {
                    a.subrange(k3, e)
                };
                let next = if quoted && e < a.len() {
                    e + 1
                } else {
                    e
                };
                proof {
                    if quoted {
                        lemma_scan(a, k3 + 1, Stop::Char, a[k3]);
                    } else {
                        lemma_scan(a, k3, Stop::AsciiWs, ' ');
                    }
                }
                if lower_seq(a.subrange(k0, k1)) == lower_seq(name) {
                    Some(decode_spec(value))
                } else {
                    attr_scan(a, name, next)
                }
            }
        }
    }
}

pub open spec fn html_attr_spec(attrs: Seq<char>, name: Seq<char>) -> Option<Seq<char>> {
    attr_scan(attrs, name, 0)
}

fn html_attr_chars(a: &[char], name: &[char]) -> (r: Option<Vec<char>>)
    ensures
        r matches Some(v) ==> html_attr_spec(a@, name@) == Some(v@),
        r is None ==> html_attr_spec(a@, name@) is None,
{
    let mut i: usize = 0;
    while i < a.len()
        invariant
            i <= a.len(),
            attr_scan(a@, name@, 0) == attr_scan(a@, name@, i as int),
        decreases a.len() - i,
    {
        let k0 = scan_exec(a, i, Stop::NotAsciiWs, ' ');
        let k1 = scan_exec(a, k0, Stop::NotAttrName, ' ');
        if k1 == k0 {
            if k0 >= a.len() {
                return None;
            }
            i = k0 + 1;
            continue;
        }
        let k2 = scan_exec(a, k1, Stop::NotAsciiWs, ' ');
        if k2 >= a.len() || a[k2] != '=' {
            i = k2;
            continue;
        }
        let k3 = scan_exec(a, k2 + 1, Stop::NotAsciiWs, ' ');
        let quoted = k3 < a.len() && (a[k3] == '"' || a[k3] == '\'');
        let e;
        let value;
        let next;
        if quoted {
            e = scan_exec(a, k3 + 1, Stop::Char, a[k3]);
            value = copy_range(a, k3 + 1, e);
            next = if e < a.len() {
                e + 1
            } else {
                e
            };
        } else {
            e = scan_exec(a, k3, Stop::AsciiWs, ' ');
            value = copy_range(a, k3, e);
            next = e;
        }
        if eq_ignore_ascii_case_range(a, k0, k1, name) {
            return Some(decode_chars(&value));
        }
        i = next;
    }
    None
}

/// The value of attribute `name` in an HTML attribute list, as `html_attr_spec` states.
pub fn html_attr(attrs: &str, name: &str) -> (r: Option<String>)
    ensures
        r matches Some(v) ==> html_attr_spec(attrs@, name@) == Some(v@),
        r is None ==> html_attr_spec(attrs@, name@) is None,
{
    let a = chars_of(attrs);
    let n = chars_of(name);
    match html_attr_chars(&a, &n) {
        Some(v) => Some(string_of(&v)),
        None => None,
    }
}

} // verus!

verus! {

// ---------------------------------------------------------------------------
// Rendering
// ---------------------------------------------------------------------------

/// Rendering state: the text written so far, and the link being read, if any, as its
/// target and the text seen inside it.
pub struct Rendering {
    pub out: Seq<char>,
    pub link: Option<(Seq<char>, Seq<char>)>,
}

pub open spec fn start_rendering() -> Rendering {
    Rendering { out: seq![], link: None }
}

/// Text goes into the open link if there is one, else to the output.
pub open spec fn push_text(st: Rendering, t: Seq<char>) -> Rendering {
    match st.link {
        Some(l) => Rendering { out: st.out, link: Some((l.0, l.1 + t)) },
        None => Rendering { out: st.out + t, link: None },
    }
}

pub open spec fn newlines(n: nat) -> Seq<char> {
    Seq::new(n, |i: int| '\n')
}

/// How a link is written out: its collapsed text and its trimmed target as
/// `text (target)`; only one of them when the other is empty or both are the same.
pub open spec fn rendered_link(href: Seq<char>, text: Seq<char>) -> Seq<char> {
    let t = inline_norm(text);
    let h = trim(href);
    if h.len() == 0 {
        t
    } else if t.len() == 0 || t == h {
        h
    } else {
        t + seq![' ', '('] + h + seq![')']
    }
}

/// Closes the open link, if any, writing it out.
pub open spec fn flush_link(st: Rendering) -> Rendering {
    match st.link {
        Some(l) => Rendering { out: st.out + rendered_link(l.0, l.1), link: None },
        None => st,
    }
}

/// The effect of one tag, given the text between `<` and `>`.
pub open spec fn apply_tag(raw: Seq<char>, st: Rendering) -> Rendering {
    let tag = trim(raw);
    if tag.len() == 0 || tag[0] == '!' {
        st
    } else {
        let closing = tag[0] == '/';
        let body = trim(tag.skip(scan(tag, 0, Stop::NotSlash, ' ')));
        let ne = scan(body, 0, Stop::WsOrSlash, ' ');
        let name = lower_seq(body.take(ne));
        let attrs = trim(body.skip(ne));
        if closing {
            if name == seq!['a'] {
                flush_link(st)
            } else if is_block_tag(name) {
                push_text(st, newlines(2))
            } else {
                st
            }
        } else if name == seq!['b', 'r'] {
            push_text(st, newlines(1))
        } else if name == seq!['h', 'r'] {
            push_text(st, newlines(2))
        } else if name == seq!['l', 'i'] {
            push_text(push_text(st, newlines(1)), seq!['-', ' '])
        } else if name == seq!['a'] {
            let st2 = flush_link(st);
            match html_attr_spec(attrs, seq!['h', 'r', 'e', 'f']) {
                Some(h) => Rendering { out: st2.out, link: Some((h, seq![])) },
                None => st2,
            }
        } else if is_block_tag(name) {
            push_text(st, newlines(2))
        } else {
            st
        }
    }
}

/// Renders `s` from state `st`: a `<` opens a tag that the next `>` closes; a `<` with
/// no `>` after it is kept as text, with the rest of the input.
pub open spec fn render_from(s: Seq<char>, st: Rendering) -> Rendering
    decreases s.len(),
{
    if s.len() == 0 {
        st
    } else if s[0] == '<' {
        let e = scan(s, 1, Stop::Char, '>');
        proof {
            lemma_scan(s, 1, Stop::Char, '>');
        }
        if e < s.len() {
            render_from(s.skip(e + 1), apply_tag(s.subrange(1, e), st))
        } else {
            push_text(push_text(st, seq!['<']), s.skip(1))
        }
    } else {
        render_from(s.skip(1), push_text(st, seq![s[0]]))
    }
}

/// What `strip_html` returns: entities decoded, tags rendered, the open link closed,
/// entities decoded again, lines normalized.
pub open spec fn strip_html_spec(s: Seq<char>) -> Seq<char> {
    normalize_rendered(decode_spec(flush_link(render_from(decode_spec(s), start_rendering())).out))
}

proof fn lemma_render_plain(t: Seq<char>, out: Seq<char>)
    requires
        forall|i: int| 0 <= i < t.len() ==> #[trigger] t[i] != '<',
    ensures
        render_from(t, Rendering { out, link: None }) == (Rendering { out: out + t, link: None }),
    decreases t.len(),
{
    if t.len() == 0 {
        assert(out + t =~= out);
    } else {
        let rest = t.skip(1);
        assert forall|i: int| 0 <= i < rest.len() implies #[trigger] rest[i] != '<' by {
            assert(rest[i] == t[i + 1]);
        }
        lemma_render_plain(rest, out + seq![t[0]]);
        assert(out + seq![t[0]] + rest =~= out + t);
    }
}

/// On HTML whose decoded form holds no tag, `strip_html` is decoding twice (the escaped
/// HTML, then its text, so that `&amp;nbsp;` ends as a space and `&amp;amp;lt;` as `&lt;`)
/// followed by line normalization.
pub proof fn law_tag_free_html_is_decoded_twice(s: Seq<char>)
    requires
        forall|i: int| 0 <= i < decode_spec(s).len() ==> #[trigger] decode_spec(s)[i] != '<',
    ensures
        strip_html_spec(s) == normalize_rendered(decode_spec(decode_spec(s))),
{
    lemma_render_plain(decode_spec(s), seq![]);
    assert(seq![] + decode_spec(s) =~= decode_spec(s));
}

/// A doubly escaped no-break space between two pieces of plain text comes out as a plain
/// space: no `&nbsp;` is left in what `strip_html` returns.
pub proof fn law_escaped_nbsp_becomes_space(a: Seq<char>, b: Seq<char>)
    requires
        no_ampersand(a),
        no_ampersand(b),
        forall|i: int| 0 <= i < a.len() ==> #[trigger] a[i] != '<',
        forall|i: int| 0 <= i < b.len() ==> #[trigger] b[i] != '<',
        a.len() > 0 && !is_ws(a[0]),
        b.len() > 0 && !is_ws(b[b.len() - 1]),
    ensures
        strip_html_spec(a + seq!['&', 'a', 'm', 'p', ';', 'n', 'b', 's', 'p', ';'] + b)
            == normalize_rendered(a + seq![' '] + b),
{
    let s = a + seq!['&', 'a', 'm', 'p', ';', 'n', 'b', 's', 'p', ';'] + b;
    let once = a + seq!['&', 'n', 'b', 's', 'p', ';'] + b;
    let twice = a + seq![' '] + b;
    law_decode_escaped_entities(a, b);
    law_decode_entity_characters(a, b);
    assert(once[0] == a[0] && once[once.len() - 1] == b[b.len() - 1]);
    assert(trim(once) == once);
    assert(twice[0] == a[0] && twice[twice.len() - 1] == b[b.len() - 1]);
    assert(trim(twice) == twice);
    assert forall|i: int| 0 <= i < decode_spec(s).len() implies #[trigger] decode_spec(s)[i] != '<' by {
        if i < a.len() {
            assert(once[i] == a[i]);
        } else if i >= a.len() + 6 {
            assert(once[i] == b[i - a.len() - 6]);
        }
    }
    law_tag_free_html_is_decoded_twice(s);
}

struct RenderState {
    out: Vec<char>,
    has_link: bool,
    href: Vec<char>,
    text: Vec<char>,
}

impl RenderState {
    spec fn state(&self) -> Rendering {
        Rendering {
            out: self.out@,
            link: if self.has_link {
                Some((self.href@, self.text@))
            } else {
                None
            },
        }
    }

    fn push_text(&mut self, t: &[char])
        ensures
            final(self).state() == push_text(old(self).state(), t@),
    {
        if self.has_link {
            extend_chars(&mut self.text, t);
        } else {
            extend_chars(&mut self.out, t);
        }
    }

    fn push_newlines(&mut self, n: usize)
        ensures
            final(self).state() == push_text(old(self).state(), newlines(n as nat)),
    {
        let mut v: Vec<char> = Vec::new();
        let mut k: usize = 0;
        while k < n
            invariant
                k <= n,
                v@ == newlines(k as nat),
            decreases n - k,
        {
            v.push('\n');
            k += 1;
            assert(v@ =~= newlines(k as nat));
        }
        self.push_text(&v);
    }

    fn flush_link(&mut self)
        ensures
            final(self).state() == flush_link(old(self).state()),
    {
        if self.has_link {
            let text = normalize_inline(&self.text);
            let href = trim_range(&self.href, 0, self.href.len());
            assert(self.href@.subrange(0, self.href@.len() as int) == self.href@);
            if href.len() == 0 {
                extend_chars(&mut self.out, &text);
            } else if text.len() == 0 || seq_eq(&text, &href) {
                extend_chars(&mut self.out, &href);
            } else {
                let ghost before = self.out@;
                extend_chars(&mut self.out, &text);
                self.out.push(' ');
                self.out.push('(');
                extend_chars(&mut self.out, &href);
                self.out.push(')');
                assert(self.out@ =~= before + (text@ + seq![' ', '('] + href@ + seq![')']));
            }
            self.has_link = false;
            self.href = Vec::new();
            self.text = Vec::new();
        }
    }

    /// Applies the tag `u[from..to]`.
    fn apply_tag(&mut self, u: &[char], from: usize, to: usize)
        requires
            from <= to <= u.len(),
        ensures
            final(self).state() == apply_tag(u@.subrange(from as int, to as int), old(self).state()),
    {
        let tag = trim_range(u, from, to);
        let ghost st0 = self.state();
        if tag.len() == 0 || tag[0] == '!' {
            return;
        }
        let closing = tag[0] == '/';
        let ns = scan_exec(&tag, 0, Stop::NotSlash, ' ');
        let body = trim_range(&tag, ns, tag.len());
        assert(tag@.subrange(ns as int, tag@.len() as int) == tag@.skip(ns as int));
        let ne = scan_exec(&body, 0, Stop::WsOrSlash, ' ');
        let name = lower_range(&body, 0, ne);
        assert(body@.subrange(0, ne as int) == body@.take(ne as int));
        let attrs = trim_range(&body, ne, body.len());
        assert(body@.subrange(ne as int, body@.len() as int) == body@.skip(ne as int));
        let a_name = vec!['a'];
        let br_name = vec!['b', 'r'];
        let hr_name = vec!['h', 'r'];
        let li_name = vec!['l', 'i'];
        let href_name = vec!['h', 'r', 'e', 'f'];
        let dash = vec!['-', ' '];
        assert(a_name@ == seq!['a']);
        assert(br_name@ == seq!['b', 'r']);
        assert(hr_name@ == seq!['h', 'r']);
        assert(li_name@ == seq!['l', 'i']);
        assert(href_name@ == seq!['h', 'r', 'e', 'f']);
        assert(dash@ == seq!['-', ' ']);
        let ghost expected = apply_tag(u@.subrange(from as int, to as int), st0);
        if closing {
            if seq_eq(&name, &a_name) {
                self.flush_link();
            } else if is_block_tag_chars(&name) {
                self.push_newlines(2);
            }
            assert(self.state() == expected);
            return;
        }
        if seq_eq(&name, &br_name) {
            self.push_newlines(1);
        } else if seq_eq(&name, &hr_name) {
            self.push_newlines(2);
        } else if seq_eq(&name, &li_name) {
            self.push_newlines(1);
            self.push_text(&dash);
        } else if seq_eq(&name, &a_name) {
            self.flush_link();
            match html_attr_chars(&attrs, &href_name) {
                Some(h) => {
                    self.has_link = true;
                    self.href = h;
                    self.text = Vec::new();
                },
                None => {},
            }
        } else if is_block_tag_chars(&name) {
            self.push_newlines(2);
        }
        assert(self.state() == expected);
    }
}

pub fn strip_html_chars(s: &[char]) -> (r: Vec<char>)
    ensures
        r@ == strip_html_spec(s@),
{
    let u = decode_chars(s);
    let mut st = RenderState { out: Vec::new(), has_link: false, href: Vec::new(), text: Vec::new() };
    let mut i: usize = 0;
    assert(u@.skip(0) == u@);
    while i < u.len()
        invariant
            i <= u.len(),
            render_from(u@, start_rendering()) == render_from(u@.skip(i as int), st.state()),
        decreases u.len() - i,
    {
        let ghost rest = u@.skip(i as int);
        let ghost st_before = st.state();
        assert(rest[0] == u@[i as int]);
        if u[i] == '<' {
            let e = scan_exec(&u, i + 1, Stop::Char, '>');
            proof {
                lemma_scan(u@, i + 1, Stop::Char, '>');
                lemma_scan(rest, 1, Stop::Char, '>');
                lemma_scan_shift(u@, i as int, 1, '>');
            }
            if e < u.len() {
                proof {
                    assert(rest.subrange(1, e - i) == u@.subrange(i + 1, e as int));
                    assert(rest.skip(e - i + 1) == u@.skip(e + 1));
                }
                st.apply_tag(&u, i + 1, e);
                assert(render_from(rest, st_before) == render_from(rest.skip(e - i + 1), apply_tag(rest.subrange(1, e - i), st_before)));
                i = e + 1;
            } else {
                let lt = vec!['<'];
                assert(lt@ == seq!['<']);
                st.push_text(&lt);
                let tail = copy_range(&u, i + 1, u.len());
                assert(tail@ == rest.skip(1));
                st.push_text(&tail);
                assert(render_from(rest, st_before) == push_text(push_text(st_before, seq!['<']), rest.skip(1)));
                i = u.len();
                assert(u@.skip(i as int) =~= seq![]);
            }
        } else {
            proof {
                assert(rest.skip(1) == u@.skip(i + 1));
            }
            let one = vec![u[i]];
            assert(one@ == seq![rest[0]]);
            st.push_text(&one);
            assert(render_from(rest, st_before) == render_from(rest.skip(1), push_text(st_before, seq![rest[0]])));
            i += 1;
        }
    }
    st.flush_link();
    let d = decode_chars(&st.out);
    normalize_rendered_text(&d)
}

/// Scanning a suffix of `a` stops at the same place, shifted.
proof fn lemma_scan_shift(a: Seq<char>, i: int, j: int, q: char)
    requires
        0 <= i <= a.len(),
        0 <= j <= a.len() - i,
    ensures
        scan(a.skip(i), j, Stop::Char, q) == scan(a, i + j, Stop::Char, q) - i,
    decreases a.len() - i - j,
{
    if j < a.len() - i {
        assert(a.skip(i)[j] == a[i + j]);
        if a[i + j] != q {
            lemma_scan_shift(a, i, j + 1, q);
        }
    }
}

/// Turns Learn's entity-escaped HTML into readable text: paragraphs and other blocks
/// separated by blank lines, `<br>` as a line break, list items as `- ` lines, links as
/// `text (target)`, whitespace collapsed within each line.
pub fn strip_html(s: &str) -> (r: String)
    ensures
        r@ == strip_html_spec(s@),
        lines_ok(rendered_lines(decode_spec(
            flush_link(render_from(decode_spec(s@), start_rendering())).out,
        ))),
{
    let v = chars_of(s);
    let r = strip_html_chars(&v);
    proof {
        lemma_rendered_lines_ok(
            decode_spec(flush_link(render_from(decode_spec(s@), start_rendering())).out),
        );
    }
    string_of(&r)
}

} // verus!
