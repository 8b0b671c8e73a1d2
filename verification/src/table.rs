//! Terminal tables: cell text cleaned of control sequences, columns padded to the widest
//! cell, rounded box-drawing borders, optional ANSI styling.
use vstd::prelude::*;
use crate::text::{chars_of, extend_chars, join_lines, string_of};

verus! {

broadcast use vstd::string::group_string_axioms;

// ---------------------------------------------------------------------------
// Display width (unicode-width)
// ---------------------------------------------------------------------------

/// The display width in terminal columns that `unicode_width::UnicodeWidthStr::width`
/// gives a text.
pub uninterp spec fn display_width(s: Seq<char>) -> usize;

/// `UnicodeWidthStr::width`. Its tables of character widths are not restated here; the
/// result is named by `display_width` and depends on the text only.
#[verifier::external_body]
fn text_width(s: &str) -> (w: usize)
    ensures
        w == display_width(s@),
{
    unicode_width::UnicodeWidthStr::width(s)
}

// ---------------------------------------------------------------------------
// Styles (owo-colors)
// ---------------------------------------------------------------------------

/// A styled text as owo-colors writes it: `ESC [ code m`, the text, `ESC [ reset m`.
pub open spec fn sgr(code: Seq<char>, s: Seq<char>, reset: Seq<char>) -> Seq<char> {
    seq!['\u{1b}', '['] + code + seq!['m'] + s + seq!['\u{1b}', '['] + reset + seq!['m']
}

/// The styles the client uses.
#[derive(Debug, Clone, Copy, PartialEq, Eq, Structural)]
pub enum Style {
    Bold,
    Dimmed,
    Green,
    Yellow,
    Cyan,
    BrightRed,
}

pub open spec fn style_code(st: Style) -> Seq<char> {
    match st {
        Style::Bold => seq!['1'],
        Style::Dimmed => seq!['2'],
        Style::Green => seq!['3', '2'],
        Style::Yellow => seq!['3', '3'],
        Style::Cyan => seq!['3', '6'],
        Style::BrightRed => seq!['9', '1'],
    }
}

/// Text attributes end with `0`, foreground colors with `39`.
pub open spec fn style_reset(st: Style) -> Seq<char> {
    match st {
        Style::Bold | Style::Dimmed => seq!['0'],
        _ => seq!['3', '9'],
    }
}

/// `s` in style `st` when color is on, else `s` itself.
pub open spec fn paint(st: Style, s: Seq<char>, color: bool) -> Seq<char> {
    if color {
        sgr(style_code(st), s, style_reset(st))
    } else {
        s
    }
}

/// `OwoColorize::bold`, displayed.
#[verifier::external_body]
fn owo_bold(s: &str) -> (r: String)
    ensures
        r@ == sgr(seq!['1'], s@, seq!['0']),
{
    owo_colors::OwoColorize::bold(&s).to_string()
}

/// `OwoColorize::dimmed`, displayed.
#[verifier::external_body]
fn owo_dimmed(s: &str) -> (r: String)
    ensures
        r@ == sgr(seq!['2'], s@, seq!['0']),
{
    owo_colors::OwoColorize::dimmed(&s).to_string()
}

/// `OwoColorize::green`, displayed.
#[verifier::external_body]
fn owo_green(s: &str) -> (r: String)
    ensures
        r@ == sgr(seq!['3', '2'], s@, seq!['3', '9']),
{
    owo_colors::OwoColorize::green(&s).to_string()
}

/// `OwoColorize::yellow`, displayed.
#[verifier::external_body]
fn owo_yellow(s: &str) -> (r: String)
    ensures
        r@ == sgr(seq!['3', '3'], s@, seq!['3', '9']),
{
    owo_colors::OwoColorize::yellow(&s).to_string()
}

/// `OwoColorize::cyan`, displayed.
#[verifier::external_body]
fn owo_cyan(s: &str) -> (r: String)
    ensures
        r@ == sgr(seq!['3', '6'], s@, seq!['3', '9']),
{
    owo_colors::OwoColorize::cyan(&s).to_string()
}

/// `OwoColorize::bright_red`, displayed.
#[verifier::external_body]
fn owo_bright_red(s: &str) -> (r: String)
    ensures
        r@ == sgr(seq!['9', '1'], s@, seq!['3', '9']),
{
    owo_colors::OwoColorize::bright_red(&s).to_string()
}

/// Styles `s` when color is on (the terminal supports it); returns it unchanged otherwise.
pub fn paint_text(st: Style, s: &str, color: bool) -> (r: String)
    ensures
        r@ == paint(st, s@, color),
{
    if !color {
        return s.to_string();
    }
    match st {
        Style::Bold => owo_bold(s),
        Style::Dimmed => owo_dimmed(s),
        Style::Green => owo_green(s),
        Style::Yellow => owo_yellow(s),
        Style::Cyan => owo_cyan(s),
        Style::BrightRed => owo_bright_red(s),
    }
}

// ---------------------------------------------------------------------------
// Terminal control sequences
// ---------------------------------------------------------------------------

/// Invisible formatting characters (soft hyphen, zero-width and bidirectional controls,
/// byte-order mark) that would upset column alignment.
pub open spec fn is_table_format_char(c: char) -> bool {
    ||| c == '\u{ad}'
    ||| c == '\u{34f}'
    ||| c == '\u{61c}'
    ||| c == '\u{180e}'
    ||| ('\u{200b}' <= c && c <= '\u{200f}')
    ||| ('\u{202a}' <= c && c <= '\u{202e}')
    ||| ('\u{2060}' <= c && c <= '\u{206f}')
    ||| c == '\u{feff}'
}

fn table_format_char(c: char) -> (b: bool)
    ensures
        b == is_table_format_char(c),
{
    c == '\u{ad}' || c == '\u{34f}' || c == '\u{61c}' || c == '\u{180e}' || ('\u{200b}' <= c && c
        <= '\u{200f}') || ('\u{202a}' <= c && c <= '\u{202e}') || ('\u{2060}' <= c && c
        <= '\u{206f}') || c == '\u{feff}'
}

/// `char::is_control`: the C0 and C1 control characters and DEL.
pub open spec fn is_table_control_char(c: char) -> bool {
    c <= '\u{1f}' || ('\u{7f}' <= c && c <= '\u{9f}')
}

fn table_control_char(c: char) -> (b: bool)
    ensures
        b == is_table_control_char(c),
{
    c <= '\u{1f}' || ('\u{7f}' <= c && c <= '\u{9f}')
}

/// End of a CSI sequence whose parameters start at `i`: just past the first final byte
/// (`@` to `~`), or the end of the text.
pub open spec fn csi_end(s: Seq<char>, i: int) -> int
    decreases s.len() - i,
{
    if i < 0 || i >= s.len() {
        s.len() as int
    } else if '@' <= s[i] && s[i] <= '~' {
        i + 1
    } else {
        csi_end(s, i + 1)
    }
}

/// End of an OSC sequence whose body starts at `i`: just past a BEL, or past `ESC \`, or
/// the end of the text.
pub open spec fn osc_end(s: Seq<char>, i: int, saw_esc: bool) -> int
    decreases s.len() - i,
{
    if i < 0 || i >= s.len() {
        s.len() as int
    } else if saw_esc && s[i] == '\\' {
        i + 1
    } else if s[i] == '\u{7}' {
        i + 1
    } else {
        osc_end(s, i + 1, s[i] == '\u{1b}')
    }
}

pub proof fn lemma_csi_end(s: Seq<char>, i: int)
    requires
        0 <= i <= s.len(),
    ensures
        i <= csi_end(s, i) <= s.len(),
    decreases s.len() - i,
{
    if i < s.len() && !('@' <= s[i] && s[i] <= '~') {
        lemma_csi_end(s, i + 1);
    }
}

pub proof fn lemma_osc_end(s: Seq<char>, i: int, saw: bool)
    requires
        0 <= i <= s.len(),
    ensures
        i <= osc_end(s, i, saw) <= s.len(),
    decreases s.len() - i,
{
    if i < s.len() && !(saw && s[i] == '\\') && s[i] != '\u{7}' {
        lemma_osc_end(s, i + 1, s[i] == '\u{1b}');
    }
}

/// The text from position `i` on with escape sequences removed (CSI `ESC [ ... final`,
/// OSC `ESC ] ... BEL` or `ESC ] ... ESC \`, other two-character escapes, and 8-bit CSI),
/// invisible formatting characters dropped, other control characters turned into spaces.
pub open spec fn sanitize_from(s: Seq<char>, i: int) -> Seq<char>
    decreases s.len() - i,
{
    if i < 0 || i >= s.len() {
        seq![]
    } else {
        let c = s[i];
        proof {
            lemma_csi_end(s, i + 1);
            if i + 1 < s.len() {
                lemma_csi_end(s, i + 2);
                lemma_osc_end(s, i + 2, false);
            }
        }
        if c == '\u{1b}' {
            if i + 1 >= s.len() {
                seq![]
            } else if s[i + 1] == '[' {
                sanitize_from(s, csi_end(s, i + 2))
            } else if s[i + 1] == ']' {
                sanitize_from(s, osc_end(s, i + 2, false))
            } else {
                sanitize_from(s, i + 2)
            }
        } else if c == '\u{9b}' {
            sanitize_from(s, csi_end(s, i + 1))
        } else if is_table_format_char(c) {
            sanitize_from(s, i + 1)
        } else if is_table_control_char(c) {
            seq![' '] + sanitize_from(s, i + 1)
        } else {
            seq![c] + sanitize_from(s, i + 1)
        }
    }
}

pub open spec fn sanitize_table_spec(s: Seq<char>) -> Seq<char> {
    sanitize_from(s, 0)
}

proof fn lemma_sanitize_clean(s: Seq<char>, i: int)
    ensures
        forall|k: int|
            0 <= k < sanitize_from(s, i).len() ==> !is_table_control_char(
                #[trigger] sanitize_from(s, i)[k],
            ) && !is_table_format_char(sanitize_from(s, i)[k]),
    decreases s.len() - i,
{
    if 0 <= i < s.len() {
        let c = s[i];
        lemma_csi_end(s, i + 1);
        if i + 1 < s.len() {
            lemma_csi_end(s, i + 2);
            lemma_osc_end(s, i + 2, false);
        }
        if c == '\u{1b}' {
            if i + 1 < s.len() {
                if s[i + 1] == '[' {
                    lemma_sanitize_clean(s, csi_end(s, i + 2));
                    assert(sanitize_from(s, i) == sanitize_from(s, csi_end(s, i + 2)));
                } else if s[i + 1] == ']' {
                    lemma_sanitize_clean(s, osc_end(s, i + 2, false));
                    assert(sanitize_from(s, i) == sanitize_from(s, osc_end(s, i + 2, false)));
                } else {
                    lemma_sanitize_clean(s, i + 2);
                    assert(sanitize_from(s, i) == sanitize_from(s, i + 2));
                }
            } else {
                assert(sanitize_from(s, i).len() == 0);
            }
        } else if c == '\u{9b}' {
            lemma_sanitize_clean(s, csi_end(s, i + 1));
            assert(sanitize_from(s, i) == sanitize_from(s, csi_end(s, i + 1)));
        } else {
            lemma_sanitize_clean(s, i + 1);
            let r = sanitize_from(s, i + 1);
            if is_table_format_char(c) {
                assert(sanitize_from(s, i) == r);
            } else {
                let head = if is_table_control_char(c) {
                    seq![' ']
                } else {
                    seq![c]
                };
                assert(sanitize_from(s, i) == head + r);
                assert forall|k: int| 0 <= k < (head + r).len() implies !is_table_control_char(
                    #[trigger] (head + r)[k],
                ) && !is_table_format_char((head + r)[k]) by {
                    if k >= 1 {
                        assert((head + r)[k] == r[k - 1]);
                    }
                }
            }
        }
    }
}

/// A cleaned cell holds no control character (so no escape sequence can start in it)
/// and no invisible formatting character.
pub proof fn law_cells_hold_no_controls(s: Seq<char>)
    ensures
        forall|k: int|
            0 <= k < sanitize_table_spec(s).len() ==> !is_table_control_char(
                #[trigger] sanitize_table_spec(s)[k],
            ) && !is_table_format_char(sanitize_table_spec(s)[k]),
{
    lemma_sanitize_clean(s, 0);
}

proof fn lemma_sanitize_len(s: Seq<char>, i: int)
    requires
        0 <= i <= s.len(),
    ensures
        sanitize_from(s, i).len() <= s.len() - i,
    decreases s.len() - i,
{
    if i < s.len() {
        let c = s[i];
        lemma_csi_end(s, i + 1);
        if i + 1 < s.len() {
            lemma_csi_end(s, i + 2);
            lemma_osc_end(s, i + 2, false);
        }
        if c == '\u{1b}' {
            if i + 1 < s.len() {
                if s[i + 1] == '[' {
                    lemma_sanitize_len(s, csi_end(s, i + 2));
                } else if s[i + 1] == ']' {
                    lemma_sanitize_len(s, osc_end(s, i + 2, false));
                } else {
                    lemma_sanitize_len(s, i + 2);
                }
            }
        } else if c == '\u{9b}' {
            lemma_sanitize_len(s, csi_end(s, i + 1));
        } else {
            lemma_sanitize_len(s, i + 1);
        }
    }
}

/// Text that holds no control character and no invisible formatting character.
pub open spec fn is_clean_text(s: Seq<char>) -> bool {
    forall|k: int|
        0 <= k < s.len() ==> !is_table_control_char(#[trigger] s[k]) && !is_table_format_char(
            s[k],
        )
}

proof fn lemma_sanitize_keeps_clean(s: Seq<char>, i: int)
    requires
        0 <= i <= s.len(),
        is_clean_text(s),
    ensures
        sanitize_from(s, i) == s.subrange(i, s.len() as int),
    decreases s.len() - i,
{
    if i < s.len() {
        let c = s[i];
        assert(!is_table_control_char(s[i]) && !is_table_format_char(s[i]));
        lemma_sanitize_keeps_clean(s, i + 1);
        assert(sanitize_from(s, i) == seq![c] + sanitize_from(s, i + 1));
        assert(s.subrange(i, s.len() as int) =~= seq![c] + s.subrange(i + 1, s.len() as int));
    } else {
        assert(s.subrange(i, s.len() as int) =~= Seq::<char>::empty());
    }
}

/// Cleaning a cell's text never lengthens it, leaves text without control or formatting
/// characters exactly as it is, and so changes nothing when applied a second time.
pub proof fn law_cleaning_is_idempotent(s: Seq<char>)
    ensures
        sanitize_table_spec(s).len() <= s.len(),
        is_clean_text(s) ==> sanitize_table_spec(s) == s,
        is_clean_text(sanitize_table_spec(s)),
        sanitize_table_spec(sanitize_table_spec(s)) == sanitize_table_spec(s),
{
    lemma_sanitize_len(s, 0);
    lemma_sanitize_clean(s, 0);
    if is_clean_text(s) {
        lemma_sanitize_keeps_clean(s, 0);
        assert(s.subrange(0, s.len() as int) =~= s);
    }
    let r = sanitize_table_spec(s);
    assert(is_clean_text(r));
    lemma_sanitize_keeps_clean(r, 0);
    assert(r.subrange(0, r.len() as int) =~= r);
}

fn csi_end_exec(s: &[char], i: usize) -> (r: usize)
    requires
        i <= s.len(),
    ensures
        r == csi_end(s@, i as int),
{
    let mut k = i;
    while k < s.len() && !('@' <= s[k] && s[k] <= '~')
        invariant
            i <= k <= s.len(),
            csi_end(s@, i as int) == csi_end(s@, k as int),
        decreases s.len() - k,
    {
        k += 1;
    }
    if k < s.len() {
        k + 1
    } else {
        k
    }
}

fn osc_end_exec(s: &[char], i: usize) -> (r: usize)
    requires
        i <= s.len(),
    ensures
        r == osc_end(s@, i as int, false),
{
    let mut k = i;
    let mut saw = false;
    while k < s.len()
        invariant
            i <= k <= s.len(),
            osc_end(s@, i as int, false) == osc_end(s@, k as int, saw),
        decreases s.len() - k,
    {
        if saw && s[k] == '\\' {
            return k + 1;
        }
        if s[k] == '\u{7}' {
            return k + 1;
        }
        saw = s[k] == '\u{1b}';
        k += 1;
    }
    k
}

fn sanitize_chars(s: &[char]) -> (r: Vec<char>)
    ensures
        r@ == sanitize_table_spec(s@),
{
    let mut out: Vec<char> = Vec::new();
    let mut i: usize = 0;
    while i < s.len()
        invariant
            i <= s.len(),
            out@ + sanitize_from(s@, i as int) == sanitize_table_spec(s@),
        decreases s.len() - i,
    {
        let c = s[i];
        let ghost before = out@;
        proof {
            lemma_csi_end(s@, i + 1);
            if i + 1 < s.len() {
                lemma_csi_end(s@, i + 2);
                lemma_osc_end(s@, i + 2, false);
            }
        }
        if c == '\u{1b}' {
            if i + 1 >= s.len() {
                i = s.len();
            } else if s[i + 1] == '[' {
                i = csi_end_exec(s, i + 2);
            } else if s[i + 1] == ']' {
                i = osc_end_exec(s, i + 2);
            } else {
                i = i + 2;
            }
        } else if c == '\u{9b}' {
            i = csi_end_exec(s, i + 1);
        } else if table_format_char(c) {
            i += 1;
        } else if table_control_char(c) {
            out.push(' ');
            assert(out@ + sanitize_from(s@, i + 1) == before + (seq![' '] + sanitize_from(s@, i + 1)));
            i += 1;
        } else {
            out.push(c);
            assert(out@ + sanitize_from(s@, i + 1) == before + (seq![c] + sanitize_from(s@, i + 1)));
            i += 1;
        }
    }
    assert(out@ + seq![] == out@);
    out
}

/// Removes escape sequences and invisible characters from table text, turning other
/// control characters into spaces.
pub fn sanitize_table_text(raw: &str) -> (r: String)
    ensures
        r@ == sanitize_table_spec(raw@),
{
    let v = chars_of(raw);
    string_of(&sanitize_chars(&v))
}

// ---------------------------------------------------------------------------
// Cells and tables
// ---------------------------------------------------------------------------

/// A table cell: the text shown (possibly styled) and its display width without styling.
#[derive(Debug, Clone)]
pub struct TableCell {
    pub text: String,
    pub width: usize,
}

impl TableCell {
    /// A cell showing `raw`, cleaned.
    pub fn plain(raw: &str) -> (r: TableCell)
        ensures
            r.text@ == sanitize_table_spec(raw@),
            r.width == display_width(sanitize_table_spec(raw@)),
    {
        let text = sanitize_table_text(raw);
        let width = text_width(text.as_str());
        TableCell { text, width }
    }

    /// A cell showing `styled` when cleaning leaves `raw` unchanged, else the cleaned text;
    /// its width is that of the cleaned text.
    pub fn styled(raw: &str, styled: String) -> (r: TableCell)
        ensures
            r.text@ == (if sanitize_table_spec(raw@) == raw@ {
                styled@
            } else {
                sanitize_table_spec(raw@)
            }),
            r.width == display_width(sanitize_table_spec(raw@)),
    {
        let text = sanitize_table_text(raw);
        let width = text_width(text.as_str());
        let same = crate::text::seq_eq(&chars_of(text.as_str()), &chars_of(raw));
        let display = if same {
            styled
        } else {
            text
        };
        TableCell { text: display, width }
    }
}

pub open spec fn repeat_char(c: char, n: nat) -> Seq<char> {
    Seq::new(n, |i: int| c)
}

/// The inside of a border line: for each column, `width + 2` dashes, columns separated by
/// `mid`.
pub open spec fn rule_body(mid: char, widths: Seq<int>) -> Seq<char>
    decreases widths.len(),
{
    if widths.len() == 0 {
        seq![]
    } else {
        rule_body(mid, widths.drop_last()) + (if widths.len() > 1 {
            seq![mid]
        } else {
            seq![]
        }) + repeat_char('\u{2500}', (widths.last() + 2) as nat)
    }
}

pub open spec fn rule_spec(left: char, mid: char, right: char, widths: Seq<int>, color: bool) -> Seq<
    char,
> {
    paint(Style::Dimmed, seq![left] + rule_body(mid, widths) + seq![right], color)
}

pub open spec fn pad_count(width: int, column_width: int) -> nat {
    (if column_width > width {
        column_width - width
    } else {
        0
    } + 1) as nat
}

/// A content row: `bar`, then for each cell a space, its text, enough spaces to fill the
/// column plus one, and `bar`.
pub open spec fn row_spec(bar: Seq<char>, cells: Seq<(Seq<char>, int, int)>) -> Seq<char>
    decreases cells.len(),
{
    if cells.len() == 0 {
        bar
    } else {
        let c = cells.last();
        row_spec(bar, cells.drop_last()) + seq![' '] + c.0 + repeat_char(' ', pad_count(c.1, c.2))
            + bar
    }
}

fn push_repeat(out: &mut Vec<char>, c: char, n: u128)
    ensures
        final(out)@ == old(out)@ + repeat_char(c, n as nat),
{
    let mut k: u128 = 0;
    while k < n
        invariant
            k <= n,
            out@ == old(out)@ + repeat_char(c, k as nat),
        decreases n - k,
    {
        out.push(c);
        k += 1;
        assert(out@ =~= old(out)@ + repeat_char(c, k as nat));
    }
}

pub open spec fn widths_view(w: Seq<usize>) -> Seq<int> {
    w.map_values(|x: usize| x as int)
}

/// Builds a horizontal border line, dimmed when color is on.
pub fn table_rule(left: char, mid: char, right: char, widths: &[usize], color: bool) -> (r: String)
    ensures
        r@ == rule_spec(left, mid, right, widths_view(widths@), color),
{
    let mut s: Vec<char> = vec![left];
    let ghost wv = widths_view(widths@);
    let mut i: usize = 0;
    assert(wv.take(0) =~= seq![]);
    while i < widths.len()
        invariant
            i <= widths@.len(),
            wv == widths_view(widths@),
            s@ == seq![left] + rule_body(mid, wv.take(i as int)),
        decreases widths.len() - i,
    {
        assert(wv.take(i + 1).drop_last() == wv.take(i as int));
        assert(wv.take(i + 1).last() == widths@[i as int] as int);
        let ghost before = s@;
        if i > 0 {
            s.push(mid);
        }
        push_repeat(&mut s, '\u{2500}', widths[i] as u128 + 2);
        assert(s@ =~= seq![left] + rule_body(mid, wv.take(i + 1)));
        i += 1;
    }
    assert(wv.take(widths@.len() as int) == wv);
    s.push(right);
    let plain = string_of(&s);
    paint_text(Style::Dimmed, plain.as_str(), color)
}

pub open spec fn cells_view(cells: Seq<(String, usize, usize)>) -> Seq<(Seq<char>, int, int)> {
    cells.map_values(|c: (String, usize, usize)| (c.0@, c.1 as int, c.2 as int))
}

/// Builds one content row; each cell is its text, its display width and the width of its
/// column.
pub fn render_table_row(bar: &str, cells: &[(String, usize, usize)]) -> (r: String)
    ensures
        r@ == row_spec(bar@, cells_view(cells@)),
{
    let b = chars_of(bar);
    let mut s = chars_of(bar);
    let ghost cv = cells_view(cells@);
    let mut i: usize = 0;
    assert(cv.take(0) =~= seq![]);
    while i < cells.len()
        invariant
            i <= cells@.len(),
            b@ == bar@,
            cv == cells_view(cells@),
            s@ == row_spec(bar@, cv.take(i as int)),
        decreases cells.len() - i,
    {
        assert(cv.take(i + 1).drop_last() == cv.take(i as int));
        assert(cv.take(i + 1).last() == cv[i as int]);
        let (ref text, width, column_width) = cells[i];
        let padding: u128 = if column_width > width {
            (column_width - width) as u128
        } else {
            0
        };
        s.push(' ');
        extend_chars(&mut s, &chars_of(text.as_str()));
        push_repeat(&mut s, ' ', padding + 1);
        extend_chars(&mut s, &b);
        i += 1;
    }
    assert(cv.take(cells@.len() as int) == cv);
    string_of(&s)
}

/// The width of column `i`: the widest of its header and its cells.
pub open spec fn col_width(hw: int, rows: Seq<Seq<(Seq<char>, int)>>, i: int) -> int
    decreases rows.len(),
{
    if rows.len() == 0 {
        hw
    } else {
        let w = col_width(hw, rows.drop_last(), i);
        if 0 <= i < rows.last().len() && rows.last()[i].1 > w {
            rows.last()[i].1
        } else {
            w
        }
    }
}

/// A cell as its shown text and its width.
pub open spec fn cell_view(c: TableCell) -> (Seq<char>, int) {
    (c.text@, c.width as int)
}

/// A row as its cells' shown texts and widths.
pub open spec fn row_view(r: Seq<TableCell>) -> Seq<(Seq<char>, int)> {
    r.map_values(|c: TableCell| cell_view(c))
}

pub open spec fn rows_view(rows: Seq<Vec<TableCell>>) -> Seq<Seq<(Seq<char>, int)>> {
    rows.map_values(|r: Vec<TableCell>| row_view(r@))
}

pub open spec fn headers_view(headers: Seq<&str>) -> Seq<Seq<char>> {
    headers.map_values(|h: &str| h@)
}

pub open spec fn table_widths(headers: Seq<Seq<char>>, rows: Seq<Seq<(Seq<char>, int)>>) -> Seq<int> {
    Seq::new(headers.len(), |i: int| col_width(display_width(headers[i]) as int, rows, i))
}

proof fn lemma_col_width(hw: int, rows: Seq<Seq<(Seq<char>, int)>>, i: int)
    ensures
        hw <= col_width(hw, rows, i),
        forall|r: int|
            0 <= r < rows.len() && 0 <= i < rows[r].len() ==> (#[trigger] rows[r])[i].1 <= col_width(
                hw,
                rows,
                i,
            ),
    decreases rows.len(),
{
    if rows.len() > 0 {
        lemma_col_width(hw, rows.drop_last(), i);
        assert forall|r: int|
            0 <= r < rows.len() && 0 <= i < rows[r].len() implies (#[trigger] rows[r])[i].1
            <= col_width(hw, rows, i) by {
            if r < rows.len() - 1 {
                assert(rows.drop_last()[r] == rows[r]);
            }
        }
    }
}

/// Every column is as wide as its header and as each of its cells, and each cell is
/// padded to fill its column with one space to spare.
pub proof fn law_columns_fit_cells(headers: Seq<Seq<char>>, rows: Seq<Seq<(Seq<char>, int)>>)
    ensures
        forall|i: int|
            0 <= i < headers.len() ==> display_width(headers[i]) <= #[trigger] table_widths(
                headers,
                rows,
            )[i],
        forall|r: int, i: int|
            0 <= r < rows.len() && 0 <= i < rows[r].len() && i < headers.len() ==> {
                let c = #[trigger] rows[r][i];
                let w = table_widths(headers, rows)[i];
                &&& c.1 <= w
                &&& c.1 + pad_count(c.1, w) == w + 1
            },
{
    assert forall|i: int| 0 <= i < headers.len() implies display_width(headers[i])
        <= #[trigger] table_widths(headers, rows)[i] by {
        lemma_col_width(display_width(headers[i]) as int, rows, i);
    }
    assert forall|r: int, i: int|
        0 <= r < rows.len() && 0 <= i < rows[r].len() && i < headers.len() implies {
        let c = #[trigger] rows[r][i];
        let w = table_widths(headers, rows)[i];
        &&& c.1 <= w
        &&& c.1 + pad_count(c.1, w) == w + 1
    } by {
        lemma_col_width(display_width(headers[i]) as int, rows, i);
        assert(rows[r][i].1 <= col_width(display_width(headers[i]) as int, rows, i));
    }
}

pub open spec fn header_cells(headers: Seq<Seq<char>>, widths: Seq<int>, color: bool) -> Seq<
    (Seq<char>, int, int),
> {
    Seq::new(
        headers.len(),
        |i: int| (paint(Style::Bold, headers[i], color), display_width(headers[i]) as int, widths[i]),
    )
}

pub open spec fn row_cells(row: Seq<(Seq<char>, int)>, widths: Seq<int>) -> Seq<(Seq<char>, int, int)> {
    Seq::new(row.len(), |i: int| (row[i].0, row[i].1, widths[i]))
}

pub open spec fn bar_spec(color: bool) -> Seq<char> {
    paint(Style::Dimmed, seq!['\u{2502}'], color)
}

/// The lines of a table: top border, header row, separator, one line per row, bottom
/// border.
pub open spec fn table_lines(headers: Seq<Seq<char>>, rows: Seq<Seq<(Seq<char>, int)>>, color: bool) -> Seq<
    Seq<char>,
> {
    let w = table_widths(headers, rows);
    seq![
        rule_spec('\u{256d}', '\u{252c}', '\u{256e}', w, color),
        row_spec(bar_spec(color), header_cells(headers, w, color)),
        rule_spec('\u{251c}', '\u{253c}', '\u{2524}', w, color),
    ] + Seq::new(rows.len(), |r: int| row_spec(bar_spec(color), row_cells(rows[r], w)))
        + seq![rule_spec('\u{2570}', '\u{2534}', '\u{256f}', w, color)]
}

pub open spec fn render_table_spec(headers: Seq<Seq<char>>, rows: Seq<Seq<(Seq<char>, int)>>, color: bool) -> Seq<
    char,
> {
    join_lines(table_lines(headers, rows, color))
}

/// No escape character: nothing in the text can start a terminal control sequence.
pub open spec fn no_escape(s: Seq<char>) -> bool {
    forall|k: int| 0 <= k < s.len() ==> s[k] != '\u{1b}'
}

proof fn lemma_no_escape_concat(a: Seq<char>, b: Seq<char>)
    requires
        no_escape(a),
        no_escape(b),
    ensures
        no_escape(a + b),
{
    assert forall|k: int| 0 <= k < (a + b).len() implies (a + b)[k] != '\u{1b}' by {
        if k >= a.len() {
            assert((a + b)[k] == b[k - a.len()]);
        }
    }
}

proof fn lemma_rule_body_no_escape(mid: char, widths: Seq<int>)
    requires
        mid != '\u{1b}',
    ensures
        no_escape(rule_body(mid, widths)),
    decreases widths.len(),
{
    if widths.len() > 0 {
        lemma_rule_body_no_escape(mid, widths.drop_last());
        let sep = if widths.len() > 1 {
            seq![mid]
        } else {
            seq![]
        };
        lemma_no_escape_concat(rule_body(mid, widths.drop_last()), sep);
        lemma_no_escape_concat(
            rule_body(mid, widths.drop_last()) + sep,
            repeat_char('\u{2500}', (widths.last() + 2) as nat),
        );
    }
}

proof fn lemma_row_no_escape(bar: Seq<char>, cells: Seq<(Seq<char>, int, int)>)
    requires
        no_escape(bar),
        forall|i: int| 0 <= i < cells.len() ==> no_escape(#[trigger] cells[i].0),
    ensures
        no_escape(row_spec(bar, cells)),
    decreases cells.len(),
{
    if cells.len() > 0 {
        let c = cells.last();
        assert(no_escape(cells[cells.len() - 1].0));
        lemma_row_no_escape(bar, cells.drop_last());
        let a = row_spec(bar, cells.drop_last());
        lemma_no_escape_concat(a, seq![' ']);
        lemma_no_escape_concat(a + seq![' '], c.0);
        lemma_no_escape_concat(a + seq![' '] + c.0, repeat_char(' ', pad_count(c.1, c.2)));
        lemma_no_escape_concat(a + seq![' '] + c.0 + repeat_char(' ', pad_count(c.1, c.2)), bar);
    }
}

proof fn lemma_join_no_escape(ls: Seq<Seq<char>>)
    requires
        forall|i: int| 0 <= i < ls.len() ==> no_escape(#[trigger] ls[i]),
    ensures
        no_escape(join_lines(ls)),
    decreases ls.len(),
{
    if ls.len() > 1 {
        lemma_join_no_escape(ls.drop_last());
        assert(no_escape(ls[ls.len() - 1]));
        lemma_no_escape_concat(join_lines(ls.drop_last()), seq!['\n']);
        lemma_no_escape_concat(join_lines(ls.drop_last()) + seq!['\n'], ls.last());
    } else if ls.len() == 1 {
        assert(no_escape(ls[0]));
    }
}

/// Without color a table holds no escape character when its headers and cells hold
/// none: borders, separators and padding add none.
pub proof fn law_plain_table_has_no_escapes(
    headers: Seq<Seq<char>>,
    rows: Seq<Seq<(Seq<char>, int)>>,
)
    requires
        forall|i: int| 0 <= i < headers.len() ==> no_escape(#[trigger] headers[i]),
        forall|r: int, i: int|
            0 <= r < rows.len() && 0 <= i < rows[r].len() ==> no_escape(#[trigger] rows[r][i].0),
    ensures
        no_escape(render_table_spec(headers, rows, false)),
{
    let w = table_widths(headers, rows);
    let bar = bar_spec(false);
    assert(no_escape(bar));
    let ls = table_lines(headers, rows, false);
    assert forall|i: int| 0 <= i < ls.len() implies no_escape(#[trigger] ls[i]) by {
        if i == 0 || i == 2 || i == ls.len() - 1 {
            let (l, m, r) = if i == 0 {
                ('\u{256d}', '\u{252c}', '\u{256e}')
            } else if i == 2 {
                ('\u{251c}', '\u{253c}', '\u{2524}')
            } else {
                ('\u{2570}', '\u{2534}', '\u{256f}')
            };
            lemma_rule_body_no_escape(m, w);
            lemma_no_escape_concat(seq![l], rule_body(m, w));
            lemma_no_escape_concat(seq![l] + rule_body(m, w), seq![r]);
            assert(ls[i] == rule_spec(l, m, r, w, false));
        } else if i == 1 {
            let hc = header_cells(headers, w, false);
            assert forall|k: int| 0 <= k < hc.len() implies no_escape(#[trigger] hc[k].0) by {
                assert(hc[k].0 == headers[k]);
            }
            lemma_row_no_escape(bar, hc);
        } else {
            let r = i - 3;
            let rc = row_cells(rows[r], w);
            assert forall|k: int| 0 <= k < rc.len() implies no_escape(#[trigger] rc[k].0) by {
                assert(rc[k].0 == rows[r][k].0);
            }
            lemma_row_no_escape(bar, rc);
            assert(ls[i] == row_spec(bar, rc));
        }
    }
    lemma_join_no_escape(ls);
}

/// Renders a rounded box-drawing table: borders dimmed and headers bold when color is on,
/// every column as wide as its widest cell. No row has more cells than there are headers.
pub fn render_table(headers: &[&str], rows: &[Vec<TableCell>], color: bool) -> (r: String)
    requires
        forall|k: int| 0 <= k < rows@.len() ==> (#[trigger] rows@[k])@.len() <= headers@.len(),
    ensures
        r@ == render_table_spec(headers_view(headers@), rows_view(rows@), color),
{
    let ghost hv = headers_view(headers@);
    let ghost rv = rows_view(rows@);
    // Column widths.
    let mut widths: Vec<usize> = Vec::new();
    let mut i: usize = 0;
    while i < headers.len()
        invariant
            i <= headers@.len(),
            widths@.len() == i,
            hv == headers_view(headers@),
            forall|k: int| 0 <= k < i ==> (#[trigger] widths@[k]) as int == col_width(
                display_width(hv[k]) as int,
                rv.take(0),
                k,
            ),
        decreases headers.len() - i,
    {
        widths.push(text_width(headers[i]));
        i += 1;
    }
    let mut r: usize = 0;
    while r < rows.len()
        invariant
            r <= rows@.len(),
            widths@.len() == headers@.len(),
            forall|k: int| 0 <= k < rows@.len() ==> (#[trigger] rows@[k])@.len() <= headers@.len(),
            hv == headers_view(headers@),
            rv == rows_view(rows@),
            forall|k: int| 0 <= k < widths@.len() ==> (#[trigger] widths@[k]) as int == col_width(
                display_width(hv[k]) as int,
                rv.take(r as int),
                k,
            ),
        decreases rows.len() - r,
    {
        let ghost before = widths@;
        assert(rv.take(r + 1).drop_last() == rv.take(r as int));
        assert(rv.take(r + 1).last() == rv[r as int]);
        let row = &rows[r];
        let mut c: usize = 0;
        while c < row.len()
            invariant
                c <= row@.len(),
                row@.len() <= headers@.len(),
                widths@.len() == headers@.len(),
                before.len() == headers@.len(),
                forall|k: int| 0 <= k < widths@.len() ==> (#[trigger] widths@[k]) as int == (if k < c
                    && row@[k].width > before[k] {
                    row@[k].width as int
                } else {
                    before[k] as int
                }),
            decreases row.len() - c,
        {
            if row[c].width > widths[c] {
                widths.set(c, row[c].width);
            }
            c += 1;
        }
        r += 1;
    }
    assert(rv.take(rv.len() as int) == rv);
    let ghost w = table_widths(hv, rv);
    assert(widths_view(widths@) =~= w);

    let bar_plain = string_of(&vec!['\u{2502}']);
    let bar = paint_text(Style::Dimmed, bar_plain.as_str(), color);
    assert(bar@ == bar_spec(color));

    // Header row.
    let mut hcells: Vec<(String, usize, usize)> = Vec::new();
    let mut h: usize = 0;
    while h < headers.len()
        invariant
            h <= headers@.len(),
            hv == headers_view(headers@),
            widths@.len() == headers@.len(),
            widths_view(widths@) == w,
            hcells@.len() == h,
            forall|k: int| 0 <= k < h ==> cells_view(hcells@)[k] == #[trigger] header_cells(hv, w, color)[k],
        decreases headers.len() - h,
    {
        let styled = paint_text(Style::Bold, headers[h], color);
        let hw = text_width(headers[h]);
        let ghost prev = hcells@;
        hcells.push((styled, hw, widths[h]));
        proof {
            assert(cells_view(hcells@)[h as int] == header_cells(hv, w, color)[h as int]);
            assert forall|k: int| 0 <= k < h + 1 implies cells_view(hcells@)[k] == #[trigger] header_cells(hv, w, color)[k] by {
                if k < h {
                    assert(hcells@[k] == prev[k]);
                    assert(cells_view(prev)[k] == header_cells(hv, w, color)[k]);
                }
            }
        }
        h += 1;
    }
    assert(cells_view(hcells@) =~= header_cells(hv, w, color));

    let mut lines: Vec<String> = Vec::new();
    lines.push(table_rule('\u{256d}', '\u{252c}', '\u{256e}', &widths, color));
    lines.push(render_table_row(bar.as_str(), &hcells));
    lines.push(table_rule('\u{251c}', '\u{253c}', '\u{2524}', &widths, color));
    let mut r2: usize = 0;
    while r2 < rows.len()
        invariant
            r2 <= rows@.len(),
            w == table_widths(hv, rv),
            hv == headers_view(headers@),
            rv == rows_view(rows@),
            widths@.len() == headers@.len(),
            widths_view(widths@) == w,
            bar@ == bar_spec(color),
            forall|k: int| 0 <= k < rows@.len() ==> (#[trigger] rows@[k])@.len() <= headers@.len(),
            lines@.len() == 3 + r2,
            forall|k: int| 0 <= k < 3 + r2 ==> (#[trigger] lines@[k])@ == table_lines(hv, rv, color)[k],
        decreases rows.len() - r2,
    {
        let row = &rows[r2];
        let mut cells: Vec<(String, usize, usize)> = Vec::new();
        let mut c: usize = 0;
        while c < row.len()
            invariant
                c <= row@.len(),
                row@.len() <= headers@.len(),
                widths@.len() == headers@.len(),
                widths_view(widths@) == w,
                rv == rows_view(rows@),
                r2 < rows@.len(),
                *row == rows@[r2 as int],
                w.len() == headers@.len(),
                cells@.len() == c,
                forall|k: int| 0 <= k < c ==> cells_view(cells@)[k] == #[trigger] row_cells(rv[r2 as int], w)[k],
            decreases row.len() - c,
        {
            let ghost prev = cells@;
            cells.push((row[c].text.clone(), row[c].width, widths[c]));
            proof {
                assert forall|k: int| 0 <= k < c + 1 implies cells_view(cells@)[k] == #[trigger] row_cells(rv[r2 as int], w)[k] by {
                    if k < c {
                        assert(cells@[k] == prev[k]);
                        assert(cells_view(prev)[k] == row_cells(rv[r2 as int], w)[k]);
                    }
                }
            }
            c += 1;
        }
        assert(cells_view(cells@) =~= row_cells(rv[r2 as int], w));
        let ghost old_lines = lines@;
        lines.push(render_table_row(bar.as_str(), &cells));
        proof {
            let tl = table_lines(hv, rv, color);
            assert(tl[3 + r2] == row_spec(bar_spec(color), row_cells(rv[r2 as int], w)));
            assert(lines@[3 + r2 as int]@ == tl[3 + r2]);
            assert forall|k: int| 0 <= k < 3 + r2 + 1 implies (#[trigger] lines@[k])@ == table_lines(hv, rv, color)[k] by {
                if k < 3 + r2 {
                    assert(lines@[k] == old_lines[k]);
                }
            }
        }
        r2 += 1;
    }
    let ghost old_lines = lines@;
    lines.push(table_rule('\u{2570}', '\u{2534}', '\u{256f}', &widths, color));
    let ghost tl = table_lines(hv, rv, color);
    assert forall|k: int| 0 <= k < lines@.len() implies (#[trigger] lines@[k])@ == tl[k] by {
        if k < lines@.len() - 1 {
            assert(lines@[k] == old_lines[k]);
        }
    }
    join_strings_lines(&lines, Ghost(tl))
}

fn join_strings_lines(lines: &Vec<String>, Ghost(tl): Ghost<Seq<Seq<char>>>) -> (r: String)
    requires
        lines@.len() == tl.len(),
        forall|k: int| 0 <= k < lines@.len() ==> (#[trigger] lines@[k])@ == tl[k],
    ensures
        r@ == join_lines(tl),
{
    let mut out: Vec<char> = Vec::new();
    let mut k: usize = 0;
    assert(tl.take(0) =~= seq![]);
    while k < lines.len()
        invariant
            k <= lines@.len(),
            lines@.len() == tl.len(),
            forall|m: int| 0 <= m < lines@.len() ==> (#[trigger] lines@[m])@ == tl[m],
            out@ == join_lines(tl.take(k as int)),
        decreases lines.len() - k,
    {
        assert(tl.take(k + 1).drop_last() == tl.take(k as int));
        assert(tl.take(k + 1).last() == tl[k as int]);
        if k > 0 {
            out.push('\n');
        }
        extend_chars(&mut out, &chars_of(lines[k].as_str()));
        if k == 0 {
            assert(out@ == tl[0]);
        }
        k += 1;
    }
    assert(tl.take(tl.len() as int) == tl);
    string_of(&out)
}

} // verus!
