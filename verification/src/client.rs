//! Pure parts of the HTTP client: the `_csrf` token in the course page, file names in
//! `Content-Disposition` headers, short response excerpts for error messages, and
//! reading a reply body as JSON.
use vstd::prelude::*;
use vstd::utf8::{decode_utf8, encode_utf8, valid_utf8};
use crate::json::{json_parse, parse_json_text, JsonValue};
use crate::text::{
    chars_of, copy_range, find_chars, find_from, is_ws, is_whitespace_char, lemma_find_from,
    lemma_scan, scan, scan_exec, string_of, trim, trim_range, Stop, extend_chars,
};

verus! {

broadcast use vstd::string::group_string_axioms;

// ---------------------------------------------------------------------------
// UTF-8 (std)
// ---------------------------------------------------------------------------

/// What `String::from_utf8_lossy` makes of `b`: the text, with each invalid sequence
/// replaced by U+FFFD.
pub uninterp spec fn utf8_lossy(b: Seq<u8>) -> Seq<char>;

/// `String::from_utf8_lossy`. Its documentation promises the decoded text for valid
/// UTF-8; for other input the result is named by `utf8_lossy`, whose replacement rules
/// are not written out here.
#[verifier::external_body]
fn decode_utf8_lossy(b: &[u8]) -> (r: String)
    ensures
        r@ == utf8_lossy(b@),
        valid_utf8(b@) ==> r@ == decode_utf8(b@),
{
    String::from_utf8_lossy(b).into_owned()
}

/// `String::from_utf8`: the text when `b` is valid UTF-8, else nothing.
#[verifier::external_body]
fn decode_utf8_strict(b: Vec<u8>) -> (r: Option<String>)
    ensures
        r is Some <==> valid_utf8(b@),
        r matches Some(s) ==> s@ == decode_utf8(b@),
{
    String::from_utf8(b).ok()
}

// ---------------------------------------------------------------------------
// Percent-decoding
// ---------------------------------------------------------------------------

pub open spec fn is_hex_byte(b: u8) -> bool {
    (0x30 <= b <= 0x39) || (0x41 <= b <= 0x46) || (0x61 <= b <= 0x66)
}

pub open spec fn hex_byte_value(b: u8) -> int {
    if 0x30 <= b <= 0x39 {
        b - 0x30
    } else if 0x41 <= b <= 0x46 {
        b - 0x41 + 10
    } else {
        b - 0x61 + 10
    }
}

/// Two hex digits read as one byte.
pub open spec fn hex_pair(x: u8, y: u8) -> Option<u8> {
    if is_hex_byte(x) && is_hex_byte(y) {
        Some((16 * hex_byte_value(x) + hex_byte_value(y)) as u8)
    } else {
        None
    }
}

/// Percent-decoding from position `i`: `%` followed by two hex digits becomes the byte
/// they spell; every other byte, a `%` without two hex digits after it included, is kept.
pub open spec fn pct_from(b: Seq<u8>, i: int) -> Seq<u8>
    decreases b.len() - i,
{
    if i < 0 || i >= b.len() {
        seq![]
    } else if b[i] == 0x25 && i + 2 < b.len() && hex_pair(b[i + 1], b[i + 2]) is Some {
        seq![hex_pair(b[i + 1], b[i + 2])->0] + pct_from(b, i + 3)
    } else {
        seq![b[i]] + pct_from(b, i + 1)
    }
}

fn hex_value_exec(b: u8) -> (r: Option<u8>)
    ensures
        r is Some <==> is_hex_byte(b),
        r matches Some(v) ==> v == hex_byte_value(b),
{
    if 0x30 <= b && b <= 0x39 {
        Some(b - 0x30)
    } else if 0x41 <= b && b <= 0x46 {
        Some(b - 0x41 + 10)
    } else if 0x61 <= b && b <= 0x66 {
        Some(b - 0x61 + 10)
    } else {
        None
    }
}

fn hex_pair_exec(x: u8, y: u8) -> (r: Option<u8>)
    ensures
        r == hex_pair(x, y),
{
    match (hex_value_exec(x), hex_value_exec(y)) {
        (Some(a), Some(c)) => Some(16 * a + c),
        _ => None,
    }
}

fn percent_decode_bytes(b: &[u8]) -> (out: Vec<u8>)
    ensures
        out@ == pct_from(b@, 0),
{
    let mut out: Vec<u8> = Vec::new();
    let mut i: usize = 0;
    while i < b.len()
        invariant
            i <= b.len(),
            out@ + pct_from(b@, i as int) == pct_from(b@, 0),
        decreases b.len() - i,
    {
        if b[i] == 0x25 && b.len() - i > 2 {
            match hex_pair_exec(b[i + 1], b[i + 2]) {
                Some(v) => {
                    assert(out@.push(v) + pct_from(b@, i + 3) == out@ + (seq![v] + pct_from(
                        b@,
                        i + 3,
                    )));
                    out.push(v);
                    i += 3;
                    continue;
                },
                None => {},
            }
        }
        assert(out@.push(b[i as int]) + pct_from(b@, i + 1) == out@ + (seq![b[i as int]]
            + pct_from(b@, i + 1)));
        out.push(b[i]);
        i += 1;
    }
    assert(out@ + seq![] == out@);
    out
}

/// Percent-decodes a text into raw bytes: each `%` followed by two hex digits becomes
/// one byte; everything else is kept as it is.
pub fn percent_decode(s: &str) -> (out: Vec<u8>)
    ensures
        out@ == pct_from(encode_utf8(s@), 0),
{
    let b = s.as_bytes();
    percent_decode_bytes(b)
}

// ---------------------------------------------------------------------------
// File names
// ---------------------------------------------------------------------------

/// `s` without trailing copies of `q`.
pub open spec fn trim_end_char(s: Seq<char>, q: char) -> Seq<char>
    decreases s.len(),
{
    if s.len() > 0 && s.last() == q {
        trim_end_char(s.drop_last(), q)
    } else {
        s
    }
}

pub open spec fn slash_to_underscore(c: char) -> char {
    if c == '/' || c == '\\' {
        '_'
    } else {
        c
    }
}

/// A server-provided file name made safe to use as one path component: trimmed,
/// surrounding double quotes removed, `/` and `\` replaced by `_`.
pub open spec fn sanitize_filename_spec(name: Seq<char>) -> Seq<char> {
    let t = trim(name);
    let u = trim_end_char(t.skip(scan(t, 0, Stop::NotChar, '"')), '"');
    Seq::new(u.len(), |i: int| slash_to_underscore(u[i]))
}

/// A sanitized file name never holds a path separator, so it cannot leave the directory
/// it is saved in.
pub proof fn law_file_names_have_no_separators(name: Seq<char>)
    ensures
        forall|k: int|
            0 <= k < sanitize_filename_spec(name).len() ==> #[trigger] sanitize_filename_spec(
                name,
            )[k] != '/' && sanitize_filename_spec(name)[k] != '\\',
{
}

proof fn lemma_trim_end_char_take(s: Seq<char>, q: char, j: int)
    requires
        0 <= j <= s.len(),
        forall|k: int| j <= k < s.len() ==> #[trigger] s[k] == q,
    ensures
        trim_end_char(s, q) == trim_end_char(s.take(j), q),
    decreases s.len() - j,
{
    if j < s.len() {
        assert(s.drop_last() == s.take(s.len() - 1));
        lemma_trim_end_char_take(s.drop_last(), q, j);
        assert(s.drop_last().take(j) == s.take(j));
    } else {
        assert(s.take(j) == s);
    }
}

fn sanitize_filename_chars(name: &[char]) -> (r: Vec<char>)
    ensures
        r@ == sanitize_filename_spec(name@),
{
    let t = trim_range(name, 0, name.len());
    assert(name@.subrange(0, name@.len() as int) == name@);
    let a = scan_exec(&t, 0, Stop::NotChar, '"');
    let mut b = t.len();
    while b > a && t[b - 1] == '"'
        invariant
            a <= b <= t.len(),
            forall|k: int| b <= k < t.len() ==> #[trigger] t@[k] == '"',
        decreases b - a,
    {
        b -= 1;
    }
    proof {
        let u0 = t@.skip(a as int);
        assert forall|k: int| b - a <= k < u0.len() implies #[trigger] u0[k] == '"' by {
            assert(u0[k] == t@[a + k]);
        }
        lemma_trim_end_char_take(u0, '"', b - a);
        assert(u0.take(b - a) == t@.subrange(a as int, b as int));
        let w = t@.subrange(a as int, b as int);
        if w.len() > 0 {
            assert(w.last() == t@[b - 1]);
        }
    }
    let mut r: Vec<char> = Vec::new();
    let mut k = a;
    while k < b
        invariant
            a <= k <= b <= t.len(),
            r@.len() == k - a,
            forall|m: int| 0 <= m < k - a ==> r@[m] == slash_to_underscore(t@[a + m]),
        decreases b - k,
    {
        let c = t[k];
        r.push(if c == '/' || c == '\\' { '_' } else { c });
        k += 1;
    }
    proof {
        let u = trim_end_char(t@.skip(a as int), '"');
        assert(u == t@.subrange(a as int, b as int));
        assert(r@ =~= Seq::new(u.len(), |i: int| slash_to_underscore(u[i])));
    }
    r
}

/// Replaces path separators so server file names cannot escape the target directory.
pub fn sanitize_filename(name: &str) -> (r: String)
    ensures
        r@ == sanitize_filename_spec(name@),
{
    let v = chars_of(name);
    let r = sanitize_filename_chars(&v);
    string_of(&r)
}

pub open spec fn filename_star_key() -> Seq<char> {
    seq!['f', 'i', 'l', 'e', 'n', 'a', 'm', 'e', '*', '=']
}

pub open spec fn filename_key() -> Seq<char> {
    seq!['f', 'i', 'l', 'e', 'n', 'a', 'm', 'e', '=']
}

/// The text before the first `;`.
pub open spec fn first_segment(s: Seq<char>) -> Seq<char> {
    s.take(scan(s, 0, Stop::Char, ';'))
}

/// The percent-encoded part of an RFC 5987 `filename*=charset'lang'value`: the text after
/// the second `'` of the (trimmed) parameter value.
pub open spec fn star_value(s: Seq<char>) -> Option<Seq<char>> {
    match find_from(s, filename_star_key(), 0) {
        Some(idx) => {
            let val = trim(first_segment(s.skip(idx + 10)));
            let q1 = scan(val, 0, Stop::Char, '\'');
            if q1 >= val.len() {
                None
            } else {
                let q2 = scan(val, q1 + 1, Stop::Char, '\'');
                if q2 >= val.len() {
                    None
                } else {
                    Some(val.skip(q2 + 1))
                }
            }
        },
        None => None,
    }
}

/// The name given by `filename*=`: the value percent-decoded as UTF-8 and sanitized,
/// when that works and leaves something.
pub open spec fn star_name(s: Seq<char>) -> Option<Seq<char>> {
    match star_value(s) {
        Some(pct) => {
            let bytes = pct_from(encode_utf8(pct), 0);
            if valid_utf8(bytes) && sanitize_filename_spec(decode_utf8(bytes)).len() > 0 {
                Some(sanitize_filename_spec(decode_utf8(bytes)))
            } else {
                None
            }
        },
        None => None,
    }
}

/// The name given by `filename=`, sanitized, unless empty or holding U+FFFD (a sign that
/// the raw header was not UTF-8).
pub open spec fn plain_name(s: Seq<char>) -> Option<Seq<char>> {
    match find_from(s, filename_key(), 0) {
        Some(idx) => {
            let n = sanitize_filename_spec(first_segment(s.skip(idx + 9)));
            if n.len() > 0 && !n.contains('\u{fffd}') {
                Some(n)
            } else {
                None
            }
        },
        None => None,
    }
}

/// The file name in a `Content-Disposition` text, preferring RFC 5987 `filename*`.
pub open spec fn filename_from_text(s: Seq<char>) -> Option<Seq<char>> {
    if star_name(s) is Some {
        star_name(s)
    } else {
        plain_name(s)
    }
}

fn first_segment_end(s: &[char], from: usize) -> (r: usize)
    requires
        from <= s.len(),
    ensures
        from <= r <= s.len(),
        r - from == scan(s@.skip(from as int), 0, Stop::Char, ';'),
{
    let r = scan_exec(s, from, Stop::Char, ';');
    proof {
        lemma_scan_shift_char(s@, from as int, 0, ';');
    }
    r
}

proof fn lemma_scan_shift_char(a: Seq<char>, i: int, j: int, q: char)
    requires
        0 <= i <= a.len(),
        0 <= j <= a.len() - i,
    ensures
        scan(a.skip(i), j, Stop::Char, q) == scan(a, i + j, Stop::Char, q) - i,
    decreases a.len() - i - j,
{
    if j < a.len() - i {
        assert(a.skip(i)[j] == a[i + j]);
        if a[i + j] != q {
            lemma_scan_shift_char(a, i, j + 1, q);
        }
    }
}

fn star_value_exec(s: &[char]) -> (r: Option<Vec<char>>)
    ensures
        r matches Some(v) ==> star_value(s@) == Some(v@),
        r is None ==> star_value(s@) is None,
{
    let key = vec!['f', 'i', 'l', 'e', 'n', 'a', 'm', 'e', '*', '='];
    assert(key@ == filename_star_key());
    match find_chars(s, &key) {
        Some(idx) => {
            proof {
                lemma_find_from(s@, key@, 0);
                assert(key@.len() == 10);
                assert(crate::text::occurs_at(s@, key@, idx as int));
                assert(idx + key@.len() <= s@.len());
            }
            let n = s.len();
            assert(idx + 10 <= n);
            let from = idx + 10;
            let end = first_segment_end(s, from);
            let val = trim_range(s, from, end);
            assert(s@.subrange(from as int, end as int) == first_segment(s@.skip(from as int)));
            let q1 = scan_exec(&val, 0, Stop::Char, '\'');
            if q1 >= val.len() {
                return None;
            }
            let q2 = scan_exec(&val, q1 + 1, Stop::Char, '\'');
            if q2 >= val.len() {
                return None;
            }
            let v = copy_range(&val, q2 + 1, val.len());
            assert(v@ == val@.skip(q2 + 1));
            Some(v)
        },
        None => None,
    }
}

fn star_name_exec(s: &[char]) -> (r: Option<Vec<char>>)
    ensures
        r matches Some(v) ==> star_name(s@) == Some(v@),
        r is None ==> star_name(s@) is None,
{
    match star_value_exec(s) {
        Some(pct) => {
            let ps = string_of(&pct);
            let bytes = percent_decode(ps.as_str());
            let ghost bv = bytes@;
            match decode_utf8_strict(bytes) {
                Some(name) => {
                    let nv = chars_of(name.as_str());
                    let n = sanitize_filename_chars(&nv);
                    if n.len() > 0 {
                        Some(n)
                    } else {
                        None
                    }
                },
                None => None,
            }
        },
        None => None,
    }
}

fn contains_char(s: &[char], c: char) -> (r: bool)
    ensures
        r == s@.contains(c),
{
    let mut k: usize = 0;
    while k < s.len()
        invariant
            k <= s.len(),
            forall|m: int| 0 <= m < k ==> s@[m] != c,
        decreases s.len() - k,
    {
        if s[k] == c {
            assert(s@[k as int] == c);
            return true;
        }
        k += 1;
    }
    false
}

fn plain_name_exec(s: &[char]) -> (r: Option<Vec<char>>)
    ensures
        r matches Some(v) ==> plain_name(s@) == Some(v@),
        r is None ==> plain_name(s@) is None,
{
    let key = vec!['f', 'i', 'l', 'e', 'n', 'a', 'm', 'e', '='];
    assert(key@ == filename_key());
    match find_chars(s, &key) {
        Some(idx) => {
            proof {
                lemma_find_from(s@, key@, 0);
                assert(key@.len() == 9);
                assert(crate::text::occurs_at(s@, key@, idx as int));
                assert(idx + key@.len() <= s@.len());
            }
            let n = s.len();
            assert(idx + 9 <= n);
            let from = idx + 9;
            let end = first_segment_end(s, from);
            let val = copy_range(s, from, end);
            assert(val@ == first_segment(s@.skip(from as int)));
            let n = sanitize_filename_chars(&val);
            if n.len() > 0 && !contains_char(&n, '\u{fffd}') {
                Some(n)
            } else {
                None
            }
        },
        None => None,
    }
}

/// The file name in a `Content-Disposition` header text (already decoded), preferring
/// RFC 5987 `filename*`.
pub fn filename_from_header_text(s: &str) -> (r: Option<String>)
    ensures
        r matches Some(v) ==> filename_from_text(s@) == Some(v@),
        r is None ==> filename_from_text(s@) is None,
{
    let v = chars_of(s);
    match star_name_exec(&v) {
        Some(n) => Some(string_of(&n)),
        None => match plain_name_exec(&v) {
            Some(n) => Some(string_of(&n)),
            None => None,
        },
    }
}

/// Parses a file name from raw `Content-Disposition` bytes (decoded lossily as UTF-8),
/// preferring RFC 5987 `filename*`.
pub fn filename_from_content_disposition(raw: &[u8]) -> (r: Option<String>)
    ensures
        r matches Some(v) ==> filename_from_text(utf8_lossy(raw@)) == Some(v@),
        r is None ==> filename_from_text(utf8_lossy(raw@)) is None,
{
    let s = decode_utf8_lossy(raw);
    filename_from_header_text(s.as_str())
}

// ---------------------------------------------------------------------------
// CSRF token
// ---------------------------------------------------------------------------

pub open spec fn csrf_key() -> Seq<char> {
    seq!['_', 'c', 's', 'r', 'f', '=']
}

/// A character that may stand in a `_csrf` value: anything but quotes, `&` and whitespace.
pub open spec fn is_token_char(c: char) -> bool {
    c != '"' && c != '\'' && c != '&' && !is_ws(c)
}

/// The end of the run of token characters starting at `i`.
pub open spec fn token_end(s: Seq<char>, i: int) -> int
    decreases s.len() - i,
{
    if i < 0 || i >= s.len() || !is_token_char(s[i]) {
        i
    } else {
        token_end(s, i + 1)
    }
}

/// The leftmost match of `_csrf=` followed by at least one token character, at or after
/// `i`: the longest run of token characters after `=`.
pub open spec fn csrf_from(s: Seq<char>, i: int) -> Option<Seq<char>>
    decreases s.len() - i,
{
    if i < 0 || i >= s.len() {
        None
    } else if crate::text::occurs_at(s, csrf_key(), i) && i + 6 < s.len() && is_token_char(s[i + 6]) {
        Some(s.subrange(i + 6, token_end(s, i + 6)))
    } else {
        csrf_from(s, i + 1)
    }
}

proof fn lemma_token_end(s: Seq<char>, i: int)
    requires
        0 <= i <= s.len(),
    ensures
        i <= token_end(s, i) <= s.len(),
    decreases s.len() - i,
{
    if i < s.len() && is_token_char(s[i]) {
        lemma_token_end(s, i + 1);
    }
}

fn is_token_char_exec(c: char) -> (b: bool)
    ensures
        b == is_token_char(c),
{
    c != '"' && c != '\'' && c != '&' && !is_whitespace_char(c)
}

/// Extracts `_csrf` from course-page links without assuming a token alphabet.
pub fn extract_csrf(html: &str) -> (r: Option<String>)
    ensures
        r matches Some(v) ==> csrf_from(html@, 0) == Some(v@),
        r is None ==> csrf_from(html@, 0) is None,
{
    let s = chars_of(html);
    let key = vec!['_', 'c', 's', 'r', 'f', '='];
    assert(key@ == csrf_key());
    let mut i: usize = 0;
    while i < s.len()
        invariant
            i <= s.len(),
            s@ == html@,
            key@ == csrf_key(),
            csrf_from(s@, 0) == csrf_from(s@, i as int),
        decreases s.len() - i,
    {
        if crate::text::matches_at(&s, &key, i) && s.len() - i > 6 && is_token_char_exec(s[i + 6]) {
            let mut e = i + 6;
            proof {
                lemma_token_end(s@, i + 6);
            }
            while e < s.len() && is_token_char_exec(s[e])
                invariant
                    i + 6 <= e <= s.len(),
                    token_end(s@, i + 6) == token_end(s@, e as int),
                decreases s.len() - e,
            {
                e += 1;
            }
            let v = copy_range(&s, i + 6, e);
            assert(token_end(s@, e as int) == e);
            assert(csrf_from(s@, i as int) == Some(s@.subrange(i + 6, token_end(s@, i + 6))));
            let r = string_of(&v);
            assert(r@ == s@.subrange(i + 6, token_end(s@, i + 6)));
            assert(csrf_from(html@, 0) == Some(r@));
            return Some(r);
        }
        i += 1;
    }
    None
}

/// The first 200 characters of a response, for error messages.
pub fn snippet(s: &str) -> (r: String)
    ensures
        r@ == s@.take(if s@.len() < 200 { s@.len() as int } else { 200 }),
{
    let v = chars_of(s);
    let n = if v.len() < 200 {
        v.len()
    } else {
        200
    };
    let t = copy_range(&v, 0, n);
    string_of(&t)
}

pub open spec fn json_error_prefix() -> Seq<char> {
    seq!['F', 'a', 'i', 'l', 'e', 'd', ' ', 't', 'o', ' ', 'p', 'a', 'r', 's', 'e', ' ', 'J', 'S', 'O', 'N', ';', ' ', 'f', 'i', 'r', 's', 't', ' ', '2', '0', '0', ' ', 'r', 'e', 's', 'p', 'o', 'n', 's', 'e', ' ', 'c', 'h', 'a', 'r', 's', ':', ' ']
}

/// The message for a reply that is no JSON: a fixed sentence and the reply's first 200
/// characters.
pub open spec fn json_error_spec(text: Seq<char>) -> Seq<char> {
    json_error_prefix() + text.take(if text.len() < 200 { text.len() as int } else { 200 })
}

/// Reads a reply body as JSON, or says why not.
pub fn json_reply(text: &str) -> (r: Result<JsonValue, String>)
    ensures
        match json_parse(text@) {
            Some(v) => r == Ok::<JsonValue, String>(v),
            None => r matches Err(m) && m@ == json_error_spec(text@),
        },
{
    match parse_json_text(text) {
        Some(v) => Ok(v),
        None => {
            let mut m = vec!['F', 'a', 'i', 'l', 'e', 'd', ' ', 't', 'o', ' ', 'p', 'a', 'r', 's', 'e', ' ', 'J', 'S', 'O', 'N', ';', ' ', 'f', 'i', 'r', 's', 't', ' ', '2', '0', '0', ' ', 'r', 'e', 's', 'p', 'o', 'n', 's', 'e', ' ', 'c', 'h', 'a', 'r', 's', ':', ' '];
            extend_chars(&mut m, &chars_of(snippet(text).as_str()));
            Err(string_of(&m))
        },
    }
}

} // verus!
