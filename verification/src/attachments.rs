//! Homework attachments read from the `viewCj` page: each attachment anchor, its file
//! name and download address, and the section label it stands under.
use vstd::prelude::*;
use crate::endpoints::learn_origin_spec;
use crate::html::{decode_chars, decode_spec, strip_html_chars, strip_html_spec};
use crate::models::HomeworkAttachment;
use crate::text::{
    chars_of, copy_range, extend_chars, find_chars_from, find_from, is_ws, lemma_find_from,
    lemma_scan, matches_at, occurs_at, scan, scan_exec, starts_with, string_of, Stop,
};

verus! {

broadcast use vstd::string::group_string_axioms;

// ---------------------------------------------------------------------------
// The page's markup
// ---------------------------------------------------------------------------

/// `<span class="ftitle">`, which opens an attachment entry.
pub open spec fn entry_open() -> Seq<char> {
    seq!['<', 's', 'p', 'a', 'n', ' ', 'c', 'l', 'a', 's', 's', '=', '"', 'f', 't', 'i', 't', 'l', 'e', '"', '>']
}

/// `href="`.
pub open spec fn href_open() -> Seq<char> {
    seq!['h', 'r', 'e', 'f', '=', '"']
}

/// `</a>`.
pub open spec fn anchor_close() -> Seq<char> {
    seq!['<', '/', 'a', '>']
}

/// `<div class="left fl">`, which opens a section label.
pub open spec fn label_open() -> Seq<char> {
    seq!['<', 'd', 'i', 'v', ' ', 'c', 'l', 'a', 's', 's', '=', '"', 'l', 'e', 'f', 't', ' ', 'f', 'l', '"', '>']
}

/// `</div>`.
pub open spec fn label_close() -> Seq<char> {
    seq!['<', '/', 'd', 'i', 'v', '>']
}

/// The section labels Learn prints: homework attachments (`作业附件`), answer attachments
/// (`答案附件`), submitted homework attachments (`上交作业附件`) and comment attachments
/// (`评语附件`).
pub open spec fn section_label(i: int) -> Seq<char> {
    if i == 0 {
        seq!['\u{4f5c}', '\u{4e1a}', '\u{9644}', '\u{4ef6}']
    } else if i == 1 {
        seq!['\u{7b54}', '\u{6848}', '\u{9644}', '\u{4ef6}']
    } else if i == 2 {
        seq!['\u{4e0a}', '\u{4ea4}', '\u{4f5c}', '\u{4e1a}', '\u{9644}', '\u{4ef6}']
    } else {
        seq!['\u{8bc4}', '\u{8bed}', '\u{9644}', '\u{4ef6}']
    }
}

fn section_label_exec(i: usize) -> (r: Vec<char>)
    requires
        i < 4,
    ensures
        r@ == section_label(i as int),
{
    if i == 0 {
        vec!['\u{4f5c}', '\u{4e1a}', '\u{9644}', '\u{4ef6}']
    } else if i == 1 {
        vec!['\u{7b54}', '\u{6848}', '\u{9644}', '\u{4ef6}']
    } else if i == 2 {
        vec!['\u{4e0a}', '\u{4ea4}', '\u{4f5c}', '\u{4e1a}', '\u{9644}', '\u{4ef6}']
    } else {
        vec!['\u{8bc4}', '\u{8bed}', '\u{9644}', '\u{4ef6}']
    }
}

/// The default section of an attachment with no label before it.
pub open spec fn default_section() -> Seq<char> {
    seq!['A', 't', 't', 'a', 'c', 'h', 'm', 'e', 'n', 't']
}

// ---------------------------------------------------------------------------
// Attachment anchors
// ---------------------------------------------------------------------------
//
// An entry is `<span class="ftitle">`, any whitespace, `<a`, one whitespace character,
// the anchor's attributes, and its text up to the first `</a>`. Among the attributes,
// the last `href="` before the first `>` whose value is not empty, is closed by a quote
// and is followed by a `>` and a `</a>`, gives the address. Entries are read left to
// right, each search starting after the previous entry.

/// Reads an anchor whose `href="` stands at `k`: the address, the anchor text, and the
/// position after `</a>`.
pub open spec fn anchor_try(s: Seq<char>, k: int) -> Option<(Seq<char>, Seq<char>, int)> {
    if !occurs_at(s, href_open(), k) {
        None
    } else {
        let v_end = scan(s, k + 6, Stop::Char, '"');
        if v_end >= s.len() || v_end == k + 6 {
            None
        } else {
            let gt = scan(s, v_end + 1, Stop::Char, '>');
            if gt >= s.len() {
                None
            } else {
                match find_from(s, anchor_close(), gt + 1) {
                    Some(e) => Some((s.subrange(k + 6, v_end), s.subrange(gt + 1, e), e + 4)),
                    None => None,
                }
            }
        }
    }
}

/// Tries the `href="` positions from `k` down to `t0`.
pub open spec fn anchor_from(s: Seq<char>, t0: int, k: int) -> Option<(Seq<char>, Seq<char>, int)>
    decreases k + 1 - t0,
{
    if k < t0 {
        None
    } else {
        match anchor_try(s, k) {
            Some(m) => Some(m),
            None => anchor_from(s, t0, k - 1),
        }
    }
}

/// The entry that starts at `p`, if one does.
pub open spec fn anchor_at(s: Seq<char>, p: int) -> Option<(Seq<char>, Seq<char>, int)> {
    if !occurs_at(s, entry_open(), p) {
        None
    } else {
        let a = scan(s, p + 21, Stop::NotWs, ' ');
        if !(occurs_at(s, seq!['<', 'a'], a) && a + 2 < s.len() && is_ws(s[a + 2])) {
            None
        } else {
            let t0 = a + 3;
            anchor_from(s, t0, scan(s, t0, Stop::Char, '>'))
        }
    }
}

pub proof fn lemma_anchor_try_end(s: Seq<char>, k: int)
    ensures
        anchor_try(s, k) matches Some(m) ==> k < m.2 <= s.len(),
{
    if occurs_at(s, href_open(), k) {
        lemma_scan(s, k + 6, Stop::Char, '"');
        let v_end = scan(s, k + 6, Stop::Char, '"');
        if v_end < s.len() {
            lemma_scan(s, v_end + 1, Stop::Char, '>');
            let gt = scan(s, v_end + 1, Stop::Char, '>');
            lemma_find_from(s, anchor_close(), gt + 1);
        }
    }
}

pub proof fn lemma_anchor_from_end(s: Seq<char>, t0: int, k: int)
    ensures
        anchor_from(s, t0, k) matches Some(m) ==> t0 < m.2 <= s.len(),
    decreases k + 1 - t0,
{
    if k >= t0 {
        lemma_anchor_try_end(s, k);
        lemma_anchor_from_end(s, t0, k - 1);
    }
}

pub proof fn lemma_anchor_at_end(s: Seq<char>, p: int)
    ensures
        anchor_at(s, p) matches Some(m) ==> p < m.2 <= s.len(),
{
    if occurs_at(s, entry_open(), p) {
        lemma_scan(s, p + 21, Stop::NotWs, ' ');
        let a = scan(s, p + 21, Stop::NotWs, ' ');
        let t0 = a + 3;
        lemma_anchor_from_end(s, t0, scan(s, t0, Stop::Char, '>'));
    }
}

/// The entries from position `i` on: where each starts, its address and its text.
pub open spec fn anchors_from(s: Seq<char>, i: int) -> Seq<(int, Seq<char>, Seq<char>)>
    decreases s.len() - i,
{
    if i < 0 || i >= s.len() {
        seq![]
    } else {
        match anchor_at(s, i) {
            Some(m) => {
                proof {
                    lemma_anchor_at_end(s, i);
                }
                seq![(i, m.0, m.1)] + anchors_from(s, m.2)
            },
            None => anchors_from(s, i + 1),
        }
    }
}

// ---------------------------------------------------------------------------
// Section labels
// ---------------------------------------------------------------------------

/// The label among `section_label(i..4)` that stands at `q`, closed by `</div>`.
pub open spec fn label_choice(s: Seq<char>, q: int, i: int) -> Option<Seq<char>>
    decreases 4 - i,
{
    if i < 0 || i >= 4 {
        None
    } else if occurs_at(s, section_label(i), q) && occurs_at(
        s,
        label_close(),
        q + section_label(i).len(),
    ) {
        Some(section_label(i))
    } else {
        label_choice(s, q, i + 1)
    }
}

/// The section label that starts at `o`, if one does.
pub open spec fn label_at(s: Seq<char>, o: int) -> Option<Seq<char>> {
    if occurs_at(s, label_open(), o) {
        label_choice(s, o + 21, 0)
    } else {
        None
    }
}

/// The last section label that starts before `j`.
pub open spec fn label_before(s: Seq<char>, j: int) -> Option<Seq<char>>
    decreases j,
{
    if j <= 0 {
        None
    } else {
        match label_at(s, j - 1) {
            Some(l) => Some(l),
            None => label_before(s, j - 1),
        }
    }
}

// ---------------------------------------------------------------------------
// Download addresses
// ---------------------------------------------------------------------------

/// `downloadUrl=`.
pub open spec fn download_key() -> Seq<char> {
    seq!['d', 'o', 'w', 'n', 'l', 'o', 'a', 'd', 'U', 'r', 'l', '=']
}

/// The piece after the first `downloadUrl=`, up to the next one (`split(..).nth(1)`), or
/// the address itself when it has none.
pub open spec fn download_part(href: Seq<char>) -> Seq<char> {
    match find_from(href, download_key(), 0) {
        Some(i) => {
            let rest = href.skip(i + 12);
            match find_from(rest, download_key(), 0) {
                Some(j) => rest.take(j),
                None => rest,
            }
        },
        None => href,
    }
}

/// An absolute address as given; a path completed with the Learn origin.
pub open spec fn download_address(href: Seq<char>) -> Seq<char> {
    let p = download_part(href);
    if starts_with(p, seq!['h', 't', 't', 'p']) {
        p
    } else {
        learn_origin_spec() + p
    }
}

/// An entry as an attachment: its section, its file name (the anchor text as plain
/// text) and its download address (from the entity-decoded `href`).
pub open spec fn attachment_of(s: Seq<char>, m: (int, Seq<char>, Seq<char>)) -> (
    Seq<char>,
    Seq<char>,
    Seq<char>,
) {
    (
        match label_before(s, m.0) {
            Some(l) => l,
            None => default_section(),
        },
        strip_html_spec(m.2),
        download_address(decode_spec(m.1)),
    )
}

/// The attachments of some entries; an entry whose file name is empty is skipped.
pub open spec fn attachments_of(s: Seq<char>, ms: Seq<(int, Seq<char>, Seq<char>)>) -> Seq<
    (Seq<char>, Seq<char>, Seq<char>),
>
    decreases ms.len(),
{
    if ms.len() == 0 {
        seq![]
    } else {
        let rest = attachments_of(s, ms.drop_last());
        let a = attachment_of(s, ms.last());
        if a.1.len() == 0 {
            rest
        } else {
            rest.push(a)
        }
    }
}

pub open spec fn attachments_spec(html: Seq<char>) -> Seq<(Seq<char>, Seq<char>, Seq<char>)> {
    attachments_of(html, anchors_from(html, 0))
}

pub open spec fn attachment_view(a: HomeworkAttachment) -> (Seq<char>, Seq<char>, Seq<char>) {
    (a.section@, a.filename@, a.download_path@)
}

// ---------------------------------------------------------------------------
// Reading the page
// ---------------------------------------------------------------------------

fn anchor_try_exec(v: &[char], k: usize) -> (r: Option<(usize, usize, usize)>)
    ensures
        r is None <==> anchor_try(v@, k as int) is None,
        r matches Some(t) ==> k + 6 <= t.0 && t.0 < t.1 && t.1 < t.2 && t.2 + 4 <= v@.len()
            && anchor_try(v@, k as int) == Some(
            (v@.subrange(k + 6, t.0 as int), v@.subrange(t.1 + 1, t.2 as int), t.2 + 4),
        ),
{
    let h = vec!['h', 'r', 'e', 'f', '=', '"'];
    assert(h@ == href_open());
    let n = v.len();
    if !matches_at(v, &h, k) {
        return None;
    }
    assert(k + 6 <= n);
    proof {
        lemma_scan(v@, k + 6, Stop::Char, '"');
    }
    let v_end = scan_exec(v, k + 6, Stop::Char, '"');
    if v_end >= v.len() || v_end == k + 6 {
        return None;
    }
    proof {
        lemma_scan(v@, v_end + 1, Stop::Char, '>');
    }
    let gt = scan_exec(v, v_end + 1, Stop::Char, '>');
    if gt >= v.len() {
        return None;
    }
    let close = vec!['<', '/', 'a', '>'];
    assert(close@ == anchor_close());
    match find_chars_from(v, &close, gt + 1) {
        Some(e) => {
            proof {
                lemma_find_from(v@, anchor_close(), gt + 1);
            }
            Some((v_end, gt, e))
        },
        None => None,
    }
}

fn anchor_at_exec(v: &[char], p: usize) -> (r: Option<(usize, usize, usize, usize, usize)>)
    ensures
        r is None <==> anchor_at(v@, p as int) is None,
        r matches Some(t) ==> t.0 <= t.1 <= v@.len() && t.2 <= t.3 <= v@.len() && p < t.4 <= v@.len()
            && anchor_at(v@, p as int) == Some(
            (v@.subrange(t.0 as int, t.1 as int), v@.subrange(t.2 as int, t.3 as int), t.4 as int),
        ),
{
    let open = vec!['<', 's', 'p', 'a', 'n', ' ', 'c', 'l', 'a', 's', 's', '=', '"', 'f', 't', 'i', 't', 'l', 'e', '"', '>'];
    assert(open@ == entry_open());
    let n = v.len();
    if !matches_at(v, &open, p) {
        return None;
    }
    assert(p + 21 <= n);
    proof {
        lemma_scan(v@, p + 21, Stop::NotWs, ' ');
        lemma_anchor_at_end(v@, p as int);
    }
    let a = scan_exec(v, p + 21, Stop::NotWs, ' ');
    if !(matches_at(v, &vec!['<', 'a'], a) && a + 2 < v.len() && crate::text::is_whitespace_char(
        v[a + 2],
    )) {
        return None;
    }
    let t0 = a + 3;
    proof {
        lemma_scan(v@, t0 as int, Stop::Char, '>');
    }
    let gt = scan_exec(v, t0, Stop::Char, '>');
    let mut k = gt;
    loop
        invariant
            t0 <= k <= v@.len(),
            n == v@.len(),
            p < t0,
            anchor_at(v@, p as int) == anchor_from(v@, t0 as int, k as int),
        decreases k,
    {
        match anchor_try_exec(v, k) {
            Some(t) => {
                assert(t.2 + 4 <= n);
                return Some((k + 6, t.0, t.1 + 1, t.2, t.2 + 4));
            },
            None => {},
        }
        if k == t0 {
            assert(anchor_from(v@, t0 as int, k - 1) is None);
            return None;
        }
        k -= 1;
    }
}

fn label_at_exec(v: &[char], o: usize) -> (r: Option<usize>)
    ensures
        match label_at(v@, o as int) {
            Some(l) => r matches Some(i) && i < 4 && l == section_label(i as int),
            None => r is None,
        },
{
    let open = vec!['<', 'd', 'i', 'v', ' ', 'c', 'l', 'a', 's', 's', '=', '"', 'l', 'e', 'f', 't', ' ', 'f', 'l', '"', '>'];
    assert(open@ == label_open());
    let n = v.len();
    if !matches_at(v, &open, o) {
        return None;
    }
    assert(o + 21 <= n);
    let q = o + 21;
    let mut i: usize = 0;
    while i < 4
        invariant
            i <= 4,
            n == v@.len(),
            q == o + 21,
            occurs_at(v@, label_open(), o as int),
            label_at(v@, o as int) == label_choice(v@, q as int, i as int),
        decreases 4 - i,
    {
        let l = section_label_exec(i);
        let close = vec!['<', '/', 'd', 'i', 'v', '>'];
        assert(close@ == label_close());
        if matches_at(v, &l, q) {
            assert(q + l@.len() <= n);
            if matches_at(v, &close, q + l.len()) {
                return Some(i);
            }
        }
        i += 1;
    }
    None
}

fn label_before_exec(v: &[char], j: usize) -> (r: Option<usize>)
    ensures
        match label_before(v@, j as int) {
            Some(l) => r matches Some(i) && i < 4 && l == section_label(i as int),
            None => r is None,
        },
{
    let mut k = j;
    while k > 0
        invariant
            k <= j,
            label_before(v@, j as int) == label_before(v@, k as int),
        decreases k,
    {
        match label_at_exec(v, k - 1) {
            Some(i) => {
                return Some(i);
            },
            None => {},
        }
        k -= 1;
    }
    None
}

fn download_address_exec(href: &[char]) -> (r: Vec<char>)
    ensures
        r@ == download_address(href@),
{
    let key = vec!['d', 'o', 'w', 'n', 'l', 'o', 'a', 'd', 'U', 'r', 'l', '='];
    assert(key@ == download_key());
    let hn = href.len();
    let part: Vec<char> = match find_chars_from(href, &key, 0) {
        Some(i) => {
            proof {
                lemma_find_from(href@, download_key(), 0);
            }
            assert(i + 12 <= hn);
            let rest = copy_range(href, i + 12, href.len());
            assert(rest@ == href@.skip(i + 12));
            match find_chars_from(&rest, &key, 0) {
                Some(j) => {
                    proof {
                        lemma_find_from(rest@, download_key(), 0);
                    }
                    let t = copy_range(&rest, 0, j);
                    assert(t@ == rest@.take(j as int));
                    t
                },
                None => rest,
            }
        },
        None => copy_range(href, 0, href.len()),
    };
    assert(part@ == download_part(href@));
    let http = vec!['h', 't', 't', 'p'];
    if part.len() >= 4 && matches_at(&part, &http, 0) {
        assert(part@.take(4) == part@.subrange(0, 4));
        part
    } else {
        assert(!starts_with(part@, http@)) by {
            if part@.len() >= 4 {
                assert(part@.take(4) == part@.subrange(0, 4));
            }
        }
        let mut out = chars_of(crate::endpoints::learn_origin().as_str());
        extend_chars(&mut out, &part);
        out
    }
}

/// Reads the attachments of a homework page, in the order of their entries: each with
/// the last section label before it (or `Attachment`), its file name as plain text, and
/// its download address. Entries without a file name are left out.
pub fn parse_homework_attachments(html: &str) -> (r: Vec<HomeworkAttachment>)
    ensures
        r@.map_values(|a: HomeworkAttachment| attachment_view(a)) == attachments_spec(html@),
{
    let v = chars_of(html);
    let ghost s = v@;
    let n = v.len();
    let mut out: Vec<HomeworkAttachment> = Vec::new();
    let mut i: usize = 0;
    let ghost mut ms: Seq<(int, Seq<char>, Seq<char>)> = seq![];
    assert(ms + anchors_from(s, 0) =~= anchors_from(s, 0));
    while i < n
        invariant
            n == v@.len(),
            s == v@,
            s == html@,
            i <= n,
            ms + anchors_from(s, i as int) == anchors_from(s, 0),
            out@.map_values(|a: HomeworkAttachment| attachment_view(a)) == attachments_of(s, ms),
        decreases n - i,
    {
        match anchor_at_exec(&v, i) {
            Some(t) => {
                let ghost m = (i as int, s.subrange(t.0 as int, t.1 as int), s.subrange(
                    t.2 as int,
                    t.3 as int,
                ));
                assert(anchors_from(s, i as int) == seq![m] + anchors_from(s, t.4 as int));
                assert(ms.push(m) + anchors_from(s, t.4 as int) =~= ms + anchors_from(
                    s,
                    i as int,
                ));
                let ghost before = out@;
                let name = strip_html_chars(&copy_range(&v, t.2, t.3));
                if name.len() > 0 {
                    let section = match label_before_exec(&v, i) {
                        Some(k) => section_label_exec(k),
                        None => vec!['A', 't', 't', 'a', 'c', 'h', 'm', 'e', 'n', 't'],
                    };
                    let href = decode_chars(&copy_range(&v, t.0, t.1));
                    let address = download_address_exec(&href);
                    let a = HomeworkAttachment {
                        section: string_of(&section),
                        filename: string_of(&name),
                        download_path: string_of(&address),
                    };
                    assert(attachment_view(a) == attachment_of(s, m));
                    out.push(a);
                    assert(out@.map_values(|a: HomeworkAttachment| attachment_view(a)) =~= before.map_values(
                        |a: HomeworkAttachment| attachment_view(a),
                    ).push(attachment_view(a)));
                }
                assert(ms.push(m).drop_last() == ms);
                proof {
                    ms = ms.push(m);
                }
                i = t.4;
            },
            None => {
                i += 1;
            },
        }
    }
    assert(anchors_from(s, i as int) == Seq::<(int, Seq<char>, Seq<char>)>::empty());
    assert(ms + anchors_from(s, i as int) =~= ms);
    out
}

/// Every attachment read has a file name, and an absolute download address.
pub proof fn law_attachments_named_and_absolute(html: Seq<char>)
    ensures
        forall|k: int|
            0 <= k < attachments_spec(html).len() ==> (#[trigger] attachments_spec(html)[k]).1.len()
                > 0 && starts_with(attachments_spec(html)[k].2, seq!['h', 't', 't', 'p']),
{
    lemma_attachments_of(html, anchors_from(html, 0));
}

/// `sec` is the section of an entry that starts at `p`: the label starting closest before
/// `p` (no label starts between it and `p`), or the default name when no label starts
/// before `p`.
pub open spec fn closest_label_is(s: Seq<char>, p: int, sec: Seq<char>) -> bool {
    ||| exists|o: int|
        0 <= o < p && #[trigger] label_at(s, o) == Some(sec) && forall|o2: int|
            o < o2 < p ==> #[trigger] label_at(s, o2) is None
    ||| sec == default_section() && forall|o: int| 0 <= o < p ==> #[trigger] label_at(s, o) is None
}

proof fn lemma_label_before(s: Seq<char>, j: int)
    ensures
        label_before(s, j) matches Some(l) ==> exists|o: int|
            0 <= o < j && #[trigger] label_at(s, o) == Some(l) && forall|o2: int|
                o < o2 < j ==> #[trigger] label_at(s, o2) is None,
        label_before(s, j) is None ==> forall|o: int| 0 <= o < j ==> #[trigger] label_at(s, o) is None,
    decreases j,
{
    if j > 0 {
        lemma_label_before(s, j - 1);
        match label_at(s, j - 1) {
            Some(l) => {
                assert(label_at(s, j - 1) == Some(l));
            },
            None => {
                if let Some(l) = label_before(s, j - 1) {
                    let o = choose|o: int|
                        0 <= o < j - 1 && #[trigger] label_at(s, o) == Some(l) && forall|o2: int|
                            o < o2 < j - 1 ==> #[trigger] label_at(s, o2) is None;
                    assert forall|o2: int| o < o2 < j implies #[trigger] label_at(s, o2) is None by {
                        if o2 < j - 1 {
                        }
                    }
                } else {
                    assert forall|o: int| 0 <= o < j implies #[trigger] label_at(s, o) is None by {
                        if o < j - 1 {
                        }
                    }
                }
            },
        }
    }
}

proof fn lemma_anchors_from_start(s: Seq<char>, i: int)
    ensures
        forall|e: int|
            0 <= e < anchors_from(s, i).len() ==> anchor_at(s, (#[trigger] anchors_from(s, i)[e]).0)
                is Some,
    decreases s.len() - i,
{
    if 0 <= i < s.len() {
        match anchor_at(s, i) {
            Some(m) => {
                lemma_anchor_at_end(s, i);
                lemma_anchors_from_start(s, m.2);
                let rest = anchors_from(s, m.2);
                assert forall|e: int| 0 <= e < anchors_from(s, i).len() implies anchor_at(
                    s,
                    (#[trigger] anchors_from(s, i)[e]).0,
                ) is Some by {
                    if e > 0 {
                        assert(anchors_from(s, i)[e] == rest[e - 1]);
                    }
                }
            },
            None => {
                lemma_anchors_from_start(s, i + 1);
            },
        }
    }
}

proof fn lemma_attachments_sections(s: Seq<char>, ms: Seq<(int, Seq<char>, Seq<char>)>)
    ensures
        forall|k: int|
            0 <= k < attachments_of(s, ms).len() ==> exists|e: int|
                0 <= e < ms.len() && closest_label_is(
                    s,
                    #[trigger] ms[e].0,
                    (#[trigger] attachments_of(s, ms)[k]).0,
                ),
    decreases ms.len(),
{
    if ms.len() > 0 {
        let d = ms.drop_last();
        lemma_attachments_sections(s, d);
        let rest = attachments_of(s, d);
        let last = ms[ms.len() - 1];
        lemma_label_before(s, last.0);
        assert(closest_label_is(s, last.0, attachment_of(s, last).0));
        assert forall|k: int| 0 <= k < attachments_of(s, ms).len() implies exists|e: int|
            0 <= e < ms.len() && closest_label_is(
                s,
                #[trigger] ms[e].0,
                (#[trigger] attachments_of(s, ms)[k]).0,
            ) by {
            if k < rest.len() {
                assert(attachments_of(s, ms)[k] == rest[k]);
                let e = choose|e: int|
                    0 <= e < d.len() && closest_label_is(s, #[trigger] d[e].0, (#[trigger] rest[k]).0);
                assert(ms[e] == d[e]);
            } else {
                assert(attachments_of(s, ms)[k] == attachment_of(s, last));
                assert(ms[ms.len() - 1] == last);
            }
        }
    }
}

/// Some entry of the page starts at a position `p` whose section is `sec`.
pub open spec fn section_of_some_entry(s: Seq<char>, sec: Seq<char>) -> bool {
    exists|p: int| #[trigger] anchor_at(s, p) is Some && closest_label_is(s, p, sec)
}

/// Each attachment belongs to an entry of the page, and its section is the label that
/// starts closest before that entry (no label starts in between), or `Attachment` when no
/// label comes before it.
pub proof fn law_attachment_section_is_closest_label(html: Seq<char>)
    ensures
        forall|k: int|
            0 <= k < attachments_spec(html).len() ==> section_of_some_entry(
                html,
                (#[trigger] attachments_spec(html)[k]).0,
            ),
{
    let ms = anchors_from(html, 0);
    lemma_anchors_from_start(html, 0);
    lemma_attachments_sections(html, ms);
    assert forall|k: int| 0 <= k < attachments_spec(html).len() implies section_of_some_entry(
        html,
        (#[trigger] attachments_spec(html)[k]).0,
    ) by {
        let e = choose|e: int|
            0 <= e < ms.len() && closest_label_is(
                html,
                #[trigger] ms[e].0,
                (#[trigger] attachments_of(html, ms)[k]).0,
            );
        assert(anchor_at(html, ms[e].0) is Some);
    }
}

proof fn lemma_attachments_of(s: Seq<char>, ms: Seq<(int, Seq<char>, Seq<char>)>)
    ensures
        forall|k: int|
            0 <= k < attachments_of(s, ms).len() ==> (#[trigger] attachments_of(s, ms)[k]).1.len()
                > 0 && starts_with(attachments_of(s, ms)[k].2, seq!['h', 't', 't', 'p']),
    decreases ms.len(),
{
    if ms.len() > 0 {
        lemma_attachments_of(s, ms.drop_last());
        let a = attachment_of(s, ms.last());
        let p = download_part(decode_spec(ms.last().1));
        let http = seq!['h', 't', 't', 'p'];
        if !starts_with(p, http) {
            assert((learn_origin_spec() + p).take(4) =~= http);
        }
        assert(starts_with(a.2, http));
        let rest = attachments_of(s, ms.drop_last());
        assert forall|k: int|
            0 <= k < attachments_of(s, ms).len() implies (#[trigger] attachments_of(s, ms)[k]).1.len()
            > 0 && starts_with(attachments_of(s, ms)[k].2, http) by {
            if k < rest.len() {
                assert(attachments_of(s, ms)[k] == rest[k]);
            }
        }
    }
}

} // verus!
