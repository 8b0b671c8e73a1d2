//! What the client lists: homework, announcements and course files as tables, deadlines
//! described against the present moment, and the choice and order of homework shown.
use vstd::prelude::*;
use crate::deadline::{format_local_minute, four_digit_year_millis, local_minute_text};
use crate::models::{
    short_id, short_id_spec, status_label, Course, CourseFile, Homework, HomeworkStatus, Notification,
};
use crate::table::{
    cell_view, display_width, headers_view, law_cells_hold_no_controls,
    law_plain_table_has_no_escapes, no_escape, paint, paint_text, render_table, render_table_spec,
    row_view, rows_view, sanitize_table_spec, Style, TableCell,
};
use crate::text::{
    chars_of, contains_seq, contains_text, extend_chars, nat_text, nat_text_exec, string_of,
};

verus! {

broadcast use vstd::string::group_string_axioms;

// ---------------------------------------------------------------------------
// Deadlines against now
// ---------------------------------------------------------------------------

/// Whole seconds in a span of milliseconds, rounded toward zero (chrono's `num_seconds`).
pub open spec fn whole_seconds(ms: int) -> int {
    if ms >= 0 {
        ms / 1000
    } else {
        -((-ms) / 1000)
    }
}

pub open spec fn overdue_word() -> Seq<char> {
    seq!['o', 'v', 'e', 'r', 'd', 'u', 'e']
}

pub open spec fn days_left_words() -> Seq<char> {
    seq![' ', 'd', 'a', 'y', 's', ' ', 'l', 'e', 'f', 't']
}

/// The note after a deadline with `remain` milliseconds left, and its color: overdue
/// once a whole second has passed; hours left on the last day; days left otherwise,
/// yellow for three days or fewer.
pub open spec fn deadline_note(remain: int) -> (Seq<char>, Style) {
    let secs = whole_seconds(remain);
    let days = secs / 86400;
    if secs < 0 {
        (overdue_word(), Style::BrightRed)
    } else if days == 0 {
        (
            seq!['w', 'i', 't', 'h', 'i', 'n', ' '] + nat_text((secs / 3600) as nat) + seq![
                'h',
                ' ',
                't',
                'o',
                'd',
                'a',
                'y',
            ],
            Style::BrightRed,
        )
    } else if days <= 3 {
        (nat_text(days as nat) + days_left_words(), Style::Yellow)
    } else {
        (nat_text(days as nat) + days_left_words(), Style::Green)
    }
}

/// A deadline shown as `when (note)`: plain, and with the note colored.
pub open spec fn deadline_texts_spec(when: Seq<char>, remain: int, color: bool) -> (
    Seq<char>,
    Seq<char>,
) {
    let note = deadline_note(remain);
    (
        when + seq![' ', '('] + note.0 + seq![')'],
        when + seq![' ', '('] + paint(note.1, note.0, color) + seq![')'],
    )
}

/// The deadline column of a homework: the formatted deadline with its note, or the raw
/// server text when no deadline could be read.
pub open spec fn format_deadline_spec(
    deadline: Option<i64>,
    raw: Seq<char>,
    when: Seq<char>,
    now: i64,
    color: bool,
) -> (Seq<char>, Seq<char>) {
    match deadline {
        Some(d) => deadline_texts_spec(when, d - now, color),
        None => (raw, raw),
    }
}

/// A deadline is shown overdue exactly when at least a whole second has passed; the
/// note is yellow exactly when one to three whole days are left, and green from four.
pub proof fn law_deadline_note_colors(remain: int)
    ensures
        (deadline_note(remain).0 == overdue_word() && deadline_note(remain).1 == Style::BrightRed)
            <==> remain <= -1000,
        deadline_note(remain).1 == Style::Yellow <==> 86400 <= whole_seconds(remain) < 4 * 86400,
        deadline_note(remain).1 == Style::Green <==> whole_seconds(remain) >= 4 * 86400,
{
    let secs = whole_seconds(remain);
    if remain < 0 {
        assert(secs < 0 <==> remain <= -1000);
    }
    if secs >= 0 && secs / 86400 == 0 {
        assert(deadline_note(remain).0[0] == 'w');
    }
}

/// Describes a deadline `when` (already formatted) against `now`, both in milliseconds
/// since the epoch: plain text and colored text.
pub fn deadline_texts(when: &str, deadline: i64, now: i64, color: bool) -> (r: (String, String))
    ensures
        (r.0@, r.1@) == deadline_texts_spec(when@, deadline - now, color),
{
    let remain: i128 = deadline as i128 - now as i128;
    let ghost rm = deadline - now;
    let mag: u128 = if remain >= 0 {
        remain as u128
    } else {
        (-remain) as u128
    };
    let secs_mag: u128 = mag / 1000;
    assert(secs_mag <= 0x1_0000_0000_0000_0000u128 / 1000);
    let overdue = remain < 0 && secs_mag > 0;
    assert(overdue == (whole_seconds(rm) < 0));
    let ghost note = deadline_note(rm);
    let mut text: Vec<char> = Vec::new();
    let st: Style;
    if overdue {
        text = vec!['o', 'v', 'e', 'r', 'd', 'u', 'e'];
        st = Style::BrightRed;
    } else {
        assert(whole_seconds(rm) == secs_mag as int);
        let secs: u64 = secs_mag as u64;
        let days: u64 = secs / 86400;
        if days == 0 {
            text = vec!['w', 'i', 't', 'h', 'i', 'n', ' '];
            let h = nat_text_exec(secs / 3600);
            extend_chars(&mut text, &h);
            extend_chars(&mut text, &vec!['h', ' ', 't', 'o', 'd', 'a', 'y']);
            st = Style::BrightRed;
        } else {
            text = nat_text_exec(days);
            extend_chars(&mut text, &vec![' ', 'd', 'a', 'y', 's', ' ', 'l', 'e', 'f', 't']);
            st = if days <= 3 {
                Style::Yellow
            } else {
                Style::Green
            };
        }
    }
    assert(text@ == note.0 && st == note.1);
    let note_text = string_of(&text);
    let painted = paint_text(st, note_text.as_str(), color);
    let w = chars_of(when);
    let mut plain = w.clone();
    extend_chars(&mut plain, &vec![' ', '(']);
    let mut styled = plain.clone();
    extend_chars(&mut plain, &text);
    extend_chars(&mut plain, &vec![')']);
    extend_chars(&mut styled, &chars_of(painted.as_str()));
    extend_chars(&mut styled, &vec![')']);
    (string_of(&plain), string_of(&styled))
}

/// The deadline column of a homework against `now`: the deadline formatted in local time
/// with its note, or the raw server text when no deadline was read. The local minute is
/// that of the deadline moved by the machine's zone offset (under a day, not known here).
pub fn format_deadline(deadline: Option<i64>, deadline_raw: &str, now: i64, color: bool) -> (r: (
    String,
    String,
))
    ensures
        deadline is None ==> r.0@ == deadline_raw@ && r.1@ == deadline_raw@,
        deadline matches Some(d) ==> exists|when: Seq<char>|
            (four_digit_year_millis(d as int) ==> local_minute_text(d as int, when))
                && #[trigger] format_deadline_spec(deadline, deadline_raw@, when, now, color) == (
                r.0@,
                r.1@,
            ),
{
    match deadline {
        Some(d) => {
            let when = format_local_minute(d);
            let r = deadline_texts(when.as_str(), d, now, color);
            assert(format_deadline_spec(deadline, deadline_raw@, when@, now, color) == (
                r.0@,
                r.1@,
            ));
            r
        },
        None => (deadline_raw.to_string(), deadline_raw.to_string()),
    }
}

// ---------------------------------------------------------------------------
// Cells
// ---------------------------------------------------------------------------

/// A cell showing `raw` cleaned of control sequences.
pub open spec fn plain_cell(raw: Seq<char>) -> (Seq<char>, int) {
    (sanitize_table_spec(raw), display_width(sanitize_table_spec(raw)) as int)
}

/// A cell showing `styled` when cleaning leaves `raw` as it was, else the cleaned text.
pub open spec fn styled_cell(raw: Seq<char>, styled: Seq<char>) -> (Seq<char>, int) {
    (
        if sanitize_table_spec(raw) == raw {
            styled
        } else {
            sanitize_table_spec(raw)
        },
        display_width(sanitize_table_spec(raw)) as int,
    )
}

/// The short ID of a server ID, dimmed.
pub open spec fn id_cell(full: Seq<char>, color: bool) -> (Seq<char>, int) {
    styled_cell(short_id_spec(full), paint(Style::Dimmed, short_id_spec(full), color))
}

/// A status: submitted in green, graded in cyan, pending unstyled.
pub open spec fn status_cell_spec(s: HomeworkStatus, color: bool) -> (Seq<char>, int) {
    let raw = status_label(s);
    styled_cell(
        raw,
        match s {
            HomeworkStatus::Submitted => paint(Style::Green, raw, color),
            HomeworkStatus::Graded => paint(Style::Cyan, raw, color),
            HomeworkStatus::Pending => raw,
        },
    )
}

fn id_table_cell(full: &str, color: bool) -> (c: TableCell)
    ensures
        cell_view(c) == id_cell(full@, color),
{
    let id = short_id(full);
    let dimmed = paint_text(Style::Dimmed, id.as_str(), color);
    TableCell::styled(id.as_str(), dimmed)
}

/// The status cell of a homework.
pub fn homework_status_cell(status: HomeworkStatus, color: bool) -> (c: TableCell)
    ensures
        cell_view(c) == status_cell_spec(status, color),
{
    let raw = status.label();
    let styled = match status {
        HomeworkStatus::Submitted => paint_text(Style::Green, raw, color),
        HomeworkStatus::Graded => paint_text(Style::Cyan, raw, color),
        HomeworkStatus::Pending => raw.to_string(),
    };
    TableCell::styled(raw, styled)
}

// ---------------------------------------------------------------------------
// Homework table
// ---------------------------------------------------------------------------

pub open spec fn previous_course_text() -> Seq<char> {
    seq!['(', 'p', 'r', 'e', 'v', 'i', 'o', 'u', 's', ' ', 'c', 'o', 'u', 'r', 's', 'e', ')']
}

/// The course column: the course name, or a placeholder when the name is not known.
pub open spec fn course_shown(h: Homework) -> Seq<char> {
    if h.course_name@.len() == 0 {
        previous_course_text()
    } else {
        h.course_name@
    }
}

pub open spec fn grade_shown(h: Homework) -> Seq<char> {
    match h.grade {
        Some(g) => g@,
        None => seq![],
    }
}

/// Whether any homework has a grade; the grade column is shown only then.
pub open spec fn any_grade(hws: Seq<Homework>) -> bool {
    exists|i: int| 0 <= i < hws.len() && (#[trigger] hws[i]).grade is Some
}

pub open spec fn homework_headers(with_grade: bool) -> Seq<Seq<char>> {
    let base = seq![
        seq!['I', 'D'],
        seq!['S', 't', 'a', 't', 'u', 's'],
        seq!['C', 'o', 'u', 'r', 's', 'e'],
        seq!['T', 'i', 't', 'l', 'e'],
        seq!['D', 'e', 'a', 'd', 'l', 'i', 'n', 'e'],
    ];
    if with_grade {
        base.push(seq!['G', 'r', 'a', 'd', 'e'])
    } else {
        base
    }
}

/// One homework row; `when` is its deadline formatted in local time.
pub open spec fn homework_row(
    h: Homework,
    when: Seq<char>,
    now: i64,
    with_grade: bool,
    color: bool,
) -> Seq<(Seq<char>, int)> {
    let dl = format_deadline_spec(h.deadline, h.deadline_raw@, when, now, color);
    let base = seq![
        id_cell(h.student_homework_id@, color),
        status_cell_spec(h.status, color),
        styled_cell(course_shown(h), paint(Style::Bold, course_shown(h), color)),
        plain_cell(h.title@),
        styled_cell(dl.0, dl.1),
    ];
    if with_grade {
        base.push(plain_cell(grade_shown(h)))
    } else {
        base
    }
}

/// The homework table, the `i`-th deadline formatted as `whens[i]`.
pub open spec fn homework_table_spec(
    hws: Seq<Homework>,
    whens: Seq<Seq<char>>,
    now: i64,
    color: bool,
) -> Seq<char> {
    let g = any_grade(hws);
    render_table_spec(
        homework_headers(g),
        Seq::new(hws.len(), |i: int| homework_row(hws[i], whens[i], now, g, color)),
        color,
    )
}

fn homework_any_grade(hws: &[Homework]) -> (r: bool)
    ensures
        r == any_grade(hws@),
{
    let mut i: usize = 0;
    while i < hws.len()
        invariant
            i <= hws@.len(),
            forall|k: int| 0 <= k < i ==> (#[trigger] hws@[k]).grade is None,
        decreases hws.len() - i,
    {
        if hws[i].grade.is_some() {
            assert(hws@[i as int].grade is Some);
            return true;
        }
        i += 1;
    }
    false
}

fn homework_header_names(with_grade: bool) -> (r: Vec<&'static str>)
    ensures
        headers_view(r@) == homework_headers(with_grade),
{
    proof {
        reveal_strlit("ID");
        reveal_strlit("Status");
        reveal_strlit("Course");
        reveal_strlit("Title");
        reveal_strlit("Deadline");
        reveal_strlit("Grade");
    }
    let mut v = vec!["ID", "Status", "Course", "Title", "Deadline"];
    if with_grade {
        v.push("Grade");
    }
    assert(v@[0]@ == seq!['I', 'D']);
    assert(v@[1]@ == seq!['S', 't', 'a', 't', 'u', 's']);
    assert(v@[2]@ == seq!['C', 'o', 'u', 'r', 's', 'e']);
    assert(v@[3]@ == seq!['T', 'i', 't', 'l', 'e']);
    assert(v@[4]@ == seq!['D', 'e', 'a', 'd', 'l', 'i', 'n', 'e']);
    assert(with_grade ==> v@[5]@ == seq!['G', 'r', 'a', 'd', 'e']);
    assert(headers_view(v@) =~= homework_headers(with_grade));
    v
}

fn homework_row_cells(h: &Homework, when: &str, now: i64, with_grade: bool, color: bool) -> (r: Vec<
    TableCell,
>)
    ensures
        row_view(r@) == homework_row(*h, when@, now, with_grade, color),
        r@.len() == homework_headers(with_grade).len(),
{
    proof {
        reveal_strlit("(previous course)");
    }
    let course: &str = if h.course_name.as_str().unicode_len() == 0 {
        "(previous course)"
    } else {
        h.course_name.as_str()
    };
    assert(course@ == course_shown(*h));
    let dl: (String, String) = match h.deadline {
        Some(d) => deadline_texts(when, d, now, color),
        None => (h.deadline_raw.clone(), h.deadline_raw.clone()),
    };
    assert((dl.0@, dl.1@) == format_deadline_spec(h.deadline, h.deadline_raw@, when@, now, color));
    let mut row: Vec<TableCell> = Vec::new();
    row.push(id_table_cell(h.student_homework_id.as_str(), color));
    row.push(homework_status_cell(h.status, color));
    let bold = paint_text(Style::Bold, course, color);
    row.push(TableCell::styled(course, bold));
    row.push(TableCell::plain(h.title.as_str()));
    row.push(TableCell::styled(dl.0.as_str(), dl.1));
    if with_grade {
        let g: &str = match &h.grade {
            Some(g) => g.as_str(),
            None => "",
        };
        proof {
            reveal_strlit("");
        }
        assert(g@ == grade_shown(*h));
        row.push(TableCell::plain(g));
    }
    assert(row_view(row@) =~= homework_row(*h, when@, now, with_grade, color));
    row
}

/// The homework table with the `i`-th deadline already formatted as `whens[i]`.
pub fn render_homework_table_at(hws: &[Homework], whens: &[String], now: i64, color: bool) -> (r:
    String)
    requires
        whens@.len() == hws@.len(),
    ensures
        r@ == homework_table_spec(hws@, whens@.map_values(|w: String| w@), now, color),
{
    let ghost wv = whens@.map_values(|w: String| w@);
    let g = homework_any_grade(hws);
    let headers = homework_header_names(g);
    let mut rows: Vec<Vec<TableCell>> = Vec::new();
    let mut i: usize = 0;
    while i < hws.len()
        invariant
            i <= hws@.len(),
            whens@.len() == hws@.len(),
            wv == whens@.map_values(|w: String| w@),
            g == any_grade(hws@),
            headers_view(headers@) == homework_headers(g),
            rows@.len() == i,
            forall|k: int| 0 <= k < i ==> (#[trigger] rows@[k])@.len() <= headers@.len(),
            forall|k: int|
                0 <= k < i ==> #[trigger] rows_view(rows@)[k] == homework_row(
                    hws@[k],
                    wv[k],
                    now,
                    g,
                    color,
                ),
        decreases hws.len() - i,
    {
        let row = homework_row_cells(&hws[i], whens[i].as_str(), now, g, color);
        let ghost before = rows@;
        rows.push(row);
        proof {
            assert forall|k: int| 0 <= k < i + 1 implies #[trigger] rows_view(rows@)[k]
                == homework_row(hws@[k], wv[k], now, g, color) by {
                if k < i {
                    assert(rows@[k] == before[k]);
                    assert(rows_view(before)[k] == homework_row(hws@[k], wv[k], now, g, color));
                }
            }
        }
        i += 1;
    }
    assert(rows_view(rows@) =~= Seq::new(
        hws@.len(),
        |k: int| homework_row(hws@[k], wv[k], now, g, color),
    ));
    render_table(headers.as_slice(), rows.as_slice(), color)
}

/// Each deadline that was read, within years 0 to 9999, is formatted as the local
/// `YYYY-MM-DD HH:MM` of that deadline.
pub open spec fn formatted_minutes(hws: Seq<Homework>, whens: Seq<Seq<char>>) -> bool {
    forall|k: int| 0 <= k < hws.len() ==> #[trigger] formatted_minute(hws[k], whens[k])
}

/// `when` shows the homework's deadline as a local minute, when one was read within
/// years 0 to 9999.
pub open spec fn formatted_minute(h: Homework, when: Seq<char>) -> bool {
    match h.deadline {
        Some(d) => four_digit_year_millis(d as int) ==> local_minute_text(d as int, when),
        None => true,
    }
}

/// Renders homework as a table against `now` (milliseconds since the epoch): short ID,
/// status, course, title, deadline with its note, and the grade column when any homework
/// has a grade. Deadlines are formatted in local time: each the minute of its deadline
/// moved by the machine's zone offset (under a day, not known here).
pub fn render_homework_table(hws: &[Homework], now: i64, color: bool) -> (r: String)
    ensures
        exists|whens: Seq<Seq<char>>|
            whens.len() == hws@.len() && formatted_minutes(hws@, whens)
                && #[trigger] homework_table_spec(hws@, whens, now, color) == r@,
{
    let mut whens: Vec<String> = Vec::new();
    let mut i: usize = 0;
    while i < hws.len()
        invariant
            i <= hws@.len(),
            whens@.len() == i,
            forall|k: int| 0 <= k < i ==> #[trigger] formatted_minute(hws@[k], whens@[k]@),
        decreases hws.len() - i,
    {
        let w = match hws[i].deadline {
            Some(d) => format_local_minute(d),
            None => String::new(),
        };
        whens.push(w);
        i += 1;
    }
    let r = render_homework_table_at(hws, whens.as_slice(), now, color);
    let ghost wv = whens@.map_values(|w: String| w@);
    assert(formatted_minutes(hws@, wv)) by {
        assert forall|k: int| 0 <= k < hws@.len() implies #[trigger] formatted_minute(
            hws@[k],
            wv[k],
        ) by {
            assert(wv[k] == whens@[k]@);
        }
    }
    assert(homework_table_spec(hws@, wv, now, color) == r@);
    r
}

// ---------------------------------------------------------------------------
// Announcement and file tables
// ---------------------------------------------------------------------------

pub open spec fn announcement_headers() -> Seq<Seq<char>> {
    seq![
        seq!['I', 'D'],
        seq!['S', 't', 'a', 't', 'e'],
        seq!['C', 'o', 'u', 'r', 's', 'e'],
        seq!['T', 'i', 't', 'l', 'e'],
        seq!['P', 'u', 'b', 'l', 'i', 's', 'h', 'e', 'r'],
        seq!['P', 'u', 'b', 'l', 'i', 's', 'h', 'e', 'd'],
    ]
}

pub open spec fn read_state_text(read: bool) -> Seq<char> {
    if read {
        seq!['R', 'e', 'a', 'd']
    } else {
        seq!['U', 'n', 'r', 'e', 'a', 'd']
    }
}

/// One announcement row: short ID, read state, course in cyan, title (bold while
/// unread), publisher, publish time.
pub open spec fn announcement_row(n: Notification, color: bool) -> Seq<(Seq<char>, int)> {
    seq![
        id_cell(n.id@, color),
        plain_cell(read_state_text(n.read)),
        styled_cell(n.course_name@, paint(Style::Cyan, n.course_name@, color)),
        styled_cell(
            n.title@,
            if n.read {
                n.title@
            } else {
                paint(Style::Bold, n.title@, color)
            },
        ),
        plain_cell(n.publisher@),
        plain_cell(n.publish_time@),
    ]
}

pub open spec fn announcement_table_spec(notes: Seq<Notification>, color: bool) -> Seq<char> {
    render_table_spec(
        announcement_headers(),
        Seq::new(notes.len(), |i: int| announcement_row(notes[i], color)),
        color,
    )
}

fn announcement_header_names() -> (r: Vec<&'static str>)
    ensures
        headers_view(r@) == announcement_headers(),
        r@.len() == 6,
{
    proof {
        reveal_strlit("ID");
        reveal_strlit("State");
        reveal_strlit("Course");
        reveal_strlit("Title");
        reveal_strlit("Publisher");
        reveal_strlit("Published");
    }
    let v = vec!["ID", "State", "Course", "Title", "Publisher", "Published"];
    assert(v@[0]@ == seq!['I', 'D']);
    assert(v@[1]@ == seq!['S', 't', 'a', 't', 'e']);
    assert(v@[2]@ == seq!['C', 'o', 'u', 'r', 's', 'e']);
    assert(v@[3]@ == seq!['T', 'i', 't', 'l', 'e']);
    assert(v@[4]@ == seq!['P', 'u', 'b', 'l', 'i', 's', 'h', 'e', 'r']);
    assert(v@[5]@ == seq!['P', 'u', 'b', 'l', 'i', 's', 'h', 'e', 'd']);
    assert(headers_view(v@) =~= announcement_headers());
    v
}

fn announcement_row_cells(n: &Notification, color: bool) -> (r: Vec<TableCell>)
    ensures
        row_view(r@) == announcement_row(*n, color),
        r@.len() == 6,
{
    proof {
        reveal_strlit("Read");
        reveal_strlit("Unread");
    }
    let state: &str = if n.read {
        "Read"
    } else {
        "Unread"
    };
    assert(state@ == read_state_text(n.read));
    let title = if n.read {
        n.title.clone()
    } else {
        paint_text(Style::Bold, n.title.as_str(), color)
    };
    let mut row: Vec<TableCell> = Vec::new();
    row.push(id_table_cell(n.id.as_str(), color));
    row.push(TableCell::plain(state));
    let cyan = paint_text(Style::Cyan, n.course_name.as_str(), color);
    row.push(TableCell::styled(n.course_name.as_str(), cyan));
    row.push(TableCell::styled(n.title.as_str(), title));
    row.push(TableCell::plain(n.publisher.as_str()));
    row.push(TableCell::plain(n.publish_time.as_str()));
    assert(row_view(row@) =~= announcement_row(*n, color));
    row
}

/// Renders announcements as a table: short ID, read state, course, title (bold while
/// unread), publisher and publish time.
pub fn render_announcement_table(notes: &[Notification], color: bool) -> (r: String)
    ensures
        r@ == announcement_table_spec(notes@, color),
{
    let headers = announcement_header_names();
    let mut rows: Vec<Vec<TableCell>> = Vec::new();
    let mut i: usize = 0;
    while i < notes.len()
        invariant
            i <= notes@.len(),
            headers_view(headers@) == announcement_headers(),
            headers@.len() == 6,
            rows@.len() == i,
            forall|k: int| 0 <= k < i ==> (#[trigger] rows@[k])@.len() <= headers@.len(),
            forall|k: int|
                0 <= k < i ==> #[trigger] rows_view(rows@)[k] == announcement_row(notes@[k], color),
        decreases notes.len() - i,
    {
        let row = announcement_row_cells(&notes[i], color);
        let ghost before = rows@;
        rows.push(row);
        proof {
            assert forall|k: int| 0 <= k < i + 1 implies #[trigger] rows_view(rows@)[k]
                == announcement_row(notes@[k], color) by {
                if k < i {
                    assert(rows@[k] == before[k]);
                    assert(rows_view(before)[k] == announcement_row(notes@[k], color));
                }
            }
        }
        i += 1;
    }
    assert(rows_view(rows@) =~= Seq::new(notes@.len(), |k: int| announcement_row(notes@[k], color)));
    render_table(headers.as_slice(), rows.as_slice(), color)
}

pub open spec fn file_headers() -> Seq<Seq<char>> {
    seq![
        seq!['I', 'D'],
        seq!['T', 'i', 't', 'l', 'e'],
        seq!['S', 'i', 'z', 'e'],
        seq!['U', 'p', 'l', 'o', 'a', 'd', 'e', 'd'],
    ]
}

pub open spec fn file_row(f: CourseFile, color: bool) -> Seq<(Seq<char>, int)> {
    seq![id_cell(f.id@, color), plain_cell(f.title@), plain_cell(f.size@), plain_cell(f.upload_time@)]
}

pub open spec fn file_table_spec(files: Seq<CourseFile>, color: bool) -> Seq<char> {
    render_table_spec(file_headers(), Seq::new(files.len(), |i: int| file_row(files[i], color)), color)
}

fn file_header_names() -> (r: Vec<&'static str>)
    ensures
        headers_view(r@) == file_headers(),
        r@.len() == 4,
{
    proof {
        reveal_strlit("ID");
        reveal_strlit("Title");
        reveal_strlit("Size");
        reveal_strlit("Uploaded");
    }
    let v = vec!["ID", "Title", "Size", "Uploaded"];
    assert(v@[0]@ == seq!['I', 'D']);
    assert(v@[1]@ == seq!['T', 'i', 't', 'l', 'e']);
    assert(v@[2]@ == seq!['S', 'i', 'z', 'e']);
    assert(v@[3]@ == seq!['U', 'p', 'l', 'o', 'a', 'd', 'e', 'd']);
    assert(headers_view(v@) =~= file_headers());
    v
}

/// Renders course files as a table: short ID, title, size and upload time.
pub fn render_course_file_table(files: &[CourseFile], color: bool) -> (r: String)
    ensures
        r@ == file_table_spec(files@, color),
{
    let headers = file_header_names();
    let mut rows: Vec<Vec<TableCell>> = Vec::new();
    let mut i: usize = 0;
    while i < files.len()
        invariant
            i <= files@.len(),
            headers_view(headers@) == file_headers(),
            headers@.len() == 4,
            rows@.len() == i,
            forall|k: int| 0 <= k < i ==> (#[trigger] rows@[k])@.len() <= headers@.len(),
            forall|k: int|
                0 <= k < i ==> #[trigger] rows_view(rows@)[k] == file_row(files@[k], color),
        decreases files.len() - i,
    {
        let f = &files[i];
        let mut row: Vec<TableCell> = Vec::new();
        row.push(id_table_cell(f.id.as_str(), color));
        row.push(TableCell::plain(f.title.as_str()));
        row.push(TableCell::plain(f.size.as_str()));
        row.push(TableCell::plain(f.upload_time.as_str()));
        assert(row_view(row@) =~= file_row(*f, color));
        let ghost before = rows@;
        rows.push(row);
        proof {
            assert forall|k: int| 0 <= k < i + 1 implies #[trigger] rows_view(rows@)[k]
                == file_row(files@[k], color) by {
                if k < i {
                    assert(rows@[k] == before[k]);
                    assert(rows_view(before)[k] == file_row(files@[k], color));
                }
            }
        }
        i += 1;
    }
    assert(rows_view(rows@) =~= Seq::new(files@.len(), |k: int| file_row(files@[k], color)));
    render_table(headers.as_slice(), rows.as_slice(), color)
}

// ---------------------------------------------------------------------------
// Plain output
// ---------------------------------------------------------------------------

proof fn lemma_plain_cell_clean(raw: Seq<char>)
    ensures
        no_escape(plain_cell(raw).0),
        no_escape(styled_cell(raw, raw).0),
{
    law_cells_hold_no_controls(raw);
    let t = sanitize_table_spec(raw);
    assert forall|k: int| 0 <= k < t.len() implies t[k] != '\u{1b}' by {
        assert(!crate::table::is_table_control_char(t[k]));
    }
}

/// Without color the listings hold no escape character, whatever the server sent: every
/// cell is cleaned, and nothing is styled.
pub proof fn law_plain_listings_have_no_escapes(
    hws: Seq<Homework>,
    whens: Seq<Seq<char>>,
    now: i64,
    notes: Seq<Notification>,
    files: Seq<CourseFile>,
)
    ensures
        no_escape(homework_table_spec(hws, whens, now, false)),
        no_escape(announcement_table_spec(notes, false)),
        no_escape(file_table_spec(files, false)),
{
    let g = any_grade(hws);
    let hrows = Seq::new(hws.len(), |i: int| homework_row(hws[i], whens[i], now, g, false));
    assert forall|r: int, i: int| 0 <= r < hrows.len() && 0 <= i < hrows[r].len() implies no_escape(
        #[trigger] hrows[r][i].0,
    ) by {
        let h = hws[r];
        let dl = format_deadline_spec(h.deadline, h.deadline_raw@, whens[r], now, false);
        assert(dl.1 == dl.0);
        lemma_plain_cell_clean(short_id_spec(h.student_homework_id@));
        lemma_plain_cell_clean(status_label(h.status));
        lemma_plain_cell_clean(course_shown(h));
        lemma_plain_cell_clean(h.title@);
        lemma_plain_cell_clean(dl.0);
        lemma_plain_cell_clean(grade_shown(h));
    }
    let hh = homework_headers(g);
    assert forall|i: int| 0 <= i < hh.len() implies no_escape(#[trigger] hh[i]) by {}
    law_plain_table_has_no_escapes(hh, hrows);

    let arows = Seq::new(notes.len(), |i: int| announcement_row(notes[i], false));
    assert forall|r: int, i: int| 0 <= r < arows.len() && 0 <= i < arows[r].len() implies no_escape(
        #[trigger] arows[r][i].0,
    ) by {
        let n = notes[r];
        lemma_plain_cell_clean(short_id_spec(n.id@));
        lemma_plain_cell_clean(read_state_text(n.read));
        lemma_plain_cell_clean(n.course_name@);
        lemma_plain_cell_clean(n.title@);
        lemma_plain_cell_clean(n.publisher@);
        lemma_plain_cell_clean(n.publish_time@);
    }
    let ah = announcement_headers();
    assert forall|i: int| 0 <= i < ah.len() implies no_escape(#[trigger] ah[i]) by {}
    law_plain_table_has_no_escapes(ah, arows);

    let frows = Seq::new(files.len(), |i: int| file_row(files[i], false));
    assert forall|r: int, i: int| 0 <= r < frows.len() && 0 <= i < frows[r].len() implies no_escape(
        #[trigger] frows[r][i].0,
    ) by {
        let f = files[r];
        lemma_plain_cell_clean(short_id_spec(f.id@));
        lemma_plain_cell_clean(f.title@);
        lemma_plain_cell_clean(f.size@);
        lemma_plain_cell_clean(f.upload_time@);
    }
    let fh = file_headers();
    assert forall|i: int| 0 <= i < fh.len() implies no_escape(#[trigger] fh[i]) by {}
    law_plain_table_has_no_escapes(fh, frows);
}

// ---------------------------------------------------------------------------
// Which homework is listed, and in what order
// ---------------------------------------------------------------------------

/// Overdue: an explicit deadline before now.
pub open spec fn is_overdue(h: Homework, now: i64) -> bool {
    match h.deadline {
        Some(d) => d < now,
        None => false,
    }
}

/// Without `--all` only pending homework is listed: with `--overdue` the overdue ones,
/// else the ones not overdue.
pub open spec fn listed(h: Homework, all: bool, overdue: bool, now: i64) -> bool {
    all || (h.status == HomeworkStatus::Pending && is_overdue(h, now) == overdue)
}

pub open spec fn listed_filter(s: Seq<Homework>, all: bool, overdue: bool, now: i64) -> Seq<Homework>
    decreases s.len(),
{
    if s.len() == 0 {
        seq![]
    } else if listed(s.last(), all, overdue, now) {
        listed_filter(s.drop_last(), all, overdue, now).push(s.last())
    } else {
        listed_filter(s.drop_last(), all, overdue, now)
    }
}

/// Deadline order: earlier deadlines first, homework without a deadline last.
pub open spec fn deadline_le(a: Option<i64>, b: Option<i64>) -> bool {
    match (a, b) {
        (Some(x), Some(y)) => x <= y,
        (Some(_), None) => true,
        (None, Some(_)) => false,
        (None, None) => true,
    }
}

/// Inserts `x` into a list in deadline order, after every item not due later.
pub open spec fn insert_by_deadline(s: Seq<Homework>, x: Homework) -> Seq<Homework>
    decreases s.len(),
{
    if s.len() == 0 || deadline_le(s.last().deadline, x.deadline) {
        s.push(x)
    } else {
        insert_by_deadline(s.drop_last(), x).push(s.last())
    }
}

/// A stable sort by deadline: homework due together keeps its order.
pub open spec fn sort_by_deadline(s: Seq<Homework>) -> Seq<Homework>
    decreases s.len(),
{
    if s.len() == 0 {
        seq![]
    } else {
        insert_by_deadline(sort_by_deadline(s.drop_last()), s.last())
    }
}

/// The homework listed, in the order shown.
pub open spec fn select_homework_spec(s: Seq<Homework>, all: bool, overdue: bool, now: i64) -> Seq<
    Homework,
> {
    sort_by_deadline(listed_filter(s, all, overdue, now))
}

proof fn lemma_insert_by_deadline_at(s: Seq<Homework>, x: Homework, j: int)
    requires
        0 <= j <= s.len(),
        forall|k: int| j <= k < s.len() ==> !deadline_le((#[trigger] s[k]).deadline, x.deadline),
        j == 0 || deadline_le(s[j - 1].deadline, x.deadline),
    ensures
        insert_by_deadline(s, x) == s.insert(j, x),
    decreases s.len(),
{
    if j == s.len() {
        assert(s.insert(j, x) =~= s.push(x));
    } else {
        assert(!deadline_le(s.last().deadline, x.deadline));
        let d = s.drop_last();
        assert forall|k: int| j <= k < d.len() implies !deadline_le(
            (#[trigger] d[k]).deadline,
            x.deadline,
        ) by {
            assert(d[k] == s[k]);
        }
        if j > 0 {
            assert(d[j - 1] == s[j - 1]);
        }
        lemma_insert_by_deadline_at(d, x, j);
        assert(d.insert(j, x).push(s.last()) =~= s.insert(j, x));
    }
}

fn deadline_le_exec(a: Option<i64>, b: Option<i64>) -> (r: bool)
    ensures
        r == deadline_le(a, b),
{
    match (a, b) {
        (Some(x), Some(y)) => x <= y,
        (Some(_), None) => true,
        (None, Some(_)) => false,
        (None, None) => true,
    }
}

/// The homework to list: all of it with `all`, else the pending homework that is overdue
/// (with `overdue`) or not; then sorted by deadline, earliest first and homework without
/// a deadline last, keeping the given order among equal deadlines.
pub fn select_homework(hws: Vec<Homework>, all: bool, overdue: bool, now: i64) -> (r: Vec<Homework>)
    ensures
        r@ == select_homework_spec(hws@, all, overdue, now),
{
    let ghost orig = hws@;
    let mut rest = hws;
    let mut out: Vec<Homework> = Vec::new();
    let mut i: usize = 0;
    let n = rest.len();
    assert(orig.take(0) =~= seq![]);
    while rest.len() > 0
        invariant
            n == orig.len(),
            i <= n,
            rest@ == orig.skip(i as int),
            out@ == sort_by_deadline(listed_filter(orig.take(i as int), all, overdue, now)),
        decreases rest.len(),
    {
        let h = rest.remove(0);
        assert(h == orig[i as int]);
        assert(rest@ =~= orig.skip(i + 1));
        let ghost pre = orig.take(i as int);
        assert(orig.take(i + 1).drop_last() == pre);
        assert(orig.take(i + 1).last() == h);
        let keep = all || (h.status == HomeworkStatus::Pending && match h.deadline {
            Some(d) => d < now,
            None => false,
        } == overdue);
        if keep {
            let ghost before = out@;
            let mut j = out.len();
            while j > 0 && !deadline_le_exec(out[j - 1].deadline, h.deadline)
                invariant
                    j <= out@.len(),
                    before == out@,
                    forall|k: int|
                        j <= k < out@.len() ==> !deadline_le(
                            (#[trigger] before[k]).deadline,
                            h.deadline,
                        ),
                decreases j,
            {
                j -= 1;
            }
            proof {
                lemma_insert_by_deadline_at(before, h, j as int);
                let pf = listed_filter(pre, all, overdue, now);
                assert(listed_filter(orig.take(i + 1), all, overdue, now) == pf.push(h));
                assert(pf.push(h).drop_last() == pf);
                assert(sort_by_deadline(pf.push(h)) == insert_by_deadline(sort_by_deadline(pf), h));
            }
            out.insert(j, h);
        } else {
            assert(listed_filter(orig.take(i + 1), all, overdue, now) == listed_filter(
                pre,
                all,
                overdue,
                now,
            ));
        }
        i += 1;
    }
    assert(orig.take(n as int) == orig);
    out
}

// ---------------------------------------------------------------------------
// Laws of the homework listing
// ---------------------------------------------------------------------------

pub open spec fn deadline_sorted(s: Seq<Homework>) -> bool {
    forall|i: int, j: int| 0 <= i < j < s.len() ==> deadline_le(s[i].deadline, s[j].deadline)
}

proof fn lemma_insert_by_deadline_sorted(s: Seq<Homework>, x: Homework)
    requires
        deadline_sorted(s),
    ensures
        deadline_sorted(insert_by_deadline(s, x)),
        insert_by_deadline(s, x).to_multiset() == s.to_multiset().insert(x),
    decreases s.len(),
{
    broadcast use vstd::multiset::group_multiset_axioms;
    broadcast use vstd::seq_lib::to_multiset_build;

    if s.len() == 0 || deadline_le(s.last().deadline, x.deadline) {
        let r = s.push(x);
        assert forall|i: int, j: int| 0 <= i < j < r.len() implies deadline_le(
            r[i].deadline,
            r[j].deadline,
        ) by {
            if j == s.len() && i < s.len() - 1 {
                assert(deadline_le(s[i].deadline, s[s.len() - 1].deadline));
            }
        }
    } else {
        let d = s.drop_last();
        let last = s.last();
        assert(deadline_sorted(d));
        lemma_insert_by_deadline_sorted(d, x);
        let t = insert_by_deadline(d, x);
        let r = t.push(last);
        assert(s == d.push(last));
        assert forall|k: int| 0 <= k < t.len() implies deadline_le(
            (#[trigger] t[k]).deadline,
            last.deadline,
        ) by {
            vstd::seq_lib::to_multiset_contains(t, t[k]);
            assert(t.contains(t[k]));
            if t[k] != x {
                vstd::seq_lib::to_multiset_contains(d, t[k]);
                let m = choose|m: int| 0 <= m < d.len() && d[m] == t[k];
                assert(deadline_le(s[m].deadline, s[s.len() - 1].deadline));
            }
        }
        assert forall|i: int, j: int| 0 <= i < j < r.len() implies deadline_le(
            r[i].deadline,
            r[j].deadline,
        ) by {
            if j == t.len() {
                assert(r[i] == t[i]);
            } else {
                assert(r[i] == t[i] && r[j] == t[j]);
            }
        }
        assert(r.to_multiset() =~= s.to_multiset().insert(x));
    }
}

proof fn lemma_sort_by_deadline(s: Seq<Homework>)
    ensures
        deadline_sorted(sort_by_deadline(s)),
        sort_by_deadline(s).to_multiset() == s.to_multiset(),
    decreases s.len(),
{
    broadcast use vstd::seq_lib::to_multiset_build;

    if s.len() == 0 {
        assert(sort_by_deadline(s) =~= s);
    } else {
        lemma_sort_by_deadline(s.drop_last());
        lemma_insert_by_deadline_sorted(sort_by_deadline(s.drop_last()), s.last());
        assert(s == s.drop_last().push(s.last()));
    }
}

proof fn lemma_listed_filter(s: Seq<Homework>, all: bool, overdue: bool, now: i64)
    ensures
        forall|k: int|
            0 <= k < listed_filter(s, all, overdue, now).len() ==> listed(
                #[trigger] listed_filter(s, all, overdue, now)[k],
                all,
                overdue,
                now,
            ) && s.contains(listed_filter(s, all, overdue, now)[k]),
        forall|k: int|
            0 <= k < s.len() && listed(#[trigger] s[k], all, overdue, now) ==> listed_filter(
                s,
                all,
                overdue,
                now,
            ).contains(s[k]),
    decreases s.len(),
{
    if s.len() > 0 {
        let d = s.drop_last();
        lemma_listed_filter(d, all, overdue, now);
        let f = listed_filter(d, all, overdue, now);
        assert forall|k: int|
            0 <= k < listed_filter(s, all, overdue, now).len() implies listed(
            #[trigger] listed_filter(s, all, overdue, now)[k],
            all,
            overdue,
            now,
        ) && s.contains(listed_filter(s, all, overdue, now)[k]) by {
            if k < f.len() {
                assert(listed_filter(s, all, overdue, now)[k] == f[k]);
                let m = choose|m: int| 0 <= m < d.len() && d[m] == f[k];
                assert(s[m] == d[m]);
            } else {
                assert(s[s.len() - 1] == s.last());
            }
        }
        assert forall|k: int|
            0 <= k < s.len() && listed(#[trigger] s[k], all, overdue, now) implies listed_filter(
            s,
            all,
            overdue,
            now,
        ).contains(s[k]) by {
            if k < d.len() {
                assert(d[k] == s[k]);
                assert(f.contains(s[k]));
                let m = choose|m: int| 0 <= m < f.len() && f[m] == s[k];
                assert(listed_filter(s, all, overdue, now)[m] == f[m]);
            } else {
                let r = listed_filter(s, all, overdue, now);
                assert(r[r.len() - 1] == s.last());
            }
        }
    }
}

/// The homework listing is in deadline order (earliest first, no deadline last); it holds
/// each homework that passes the filter as often as the input does and nothing else.
pub proof fn law_homework_listing_ordered(hws: Seq<Homework>, all: bool, overdue: bool, now: i64)
    ensures
        deadline_sorted(select_homework_spec(hws, all, overdue, now)),
        select_homework_spec(hws, all, overdue, now).to_multiset() == listed_filter(
            hws,
            all,
            overdue,
            now,
        ).to_multiset(),
        forall|h: Homework|
            select_homework_spec(hws, all, overdue, now).contains(h) <==> (hws.contains(h)
                && listed(h, all, overdue, now)),
{
    broadcast use vstd::seq_lib::to_multiset_contains;

    let f = listed_filter(hws, all, overdue, now);
    let r = select_homework_spec(hws, all, overdue, now);
    lemma_sort_by_deadline(f);
    lemma_listed_filter(hws, all, overdue, now);
    assert forall|h: Homework| r.contains(h) <==> (hws.contains(h) && listed(h, all, overdue, now)) by {
        assert(r.to_multiset().count(h) == f.to_multiset().count(h));
        if f.contains(h) {
            let k = choose|k: int| 0 <= k < f.len() && f[k] == h;
            assert(listed(f[k], all, overdue, now) && hws.contains(f[k]));
        }
        if hws.contains(h) && listed(h, all, overdue, now) {
            let k = choose|k: int| 0 <= k < hws.len() && hws[k] == h;
            assert(listed(hws[k], all, overdue, now));
        }
    }
}

/// With `--all` every homework is listed.
pub proof fn law_all_lists_everything(hws: Seq<Homework>, overdue: bool, now: i64)
    ensures
        listed_filter(hws, true, overdue, now) == hws,
    decreases hws.len(),
{
    if hws.len() > 0 {
        law_all_lists_everything(hws.drop_last(), overdue, now);
        assert(hws.drop_last().push(hws.last()) == hws);
    }
}

// ---------------------------------------------------------------------------
// Messages and choices around the listings
// ---------------------------------------------------------------------------

/// What is said when no homework is listed: `No homework.`, `No pending homework.` or
/// `No overdue pending homework.`.
pub open spec fn empty_homework_message_spec(all: bool, overdue: bool) -> Seq<char> {
    seq!['N', 'o', ' '] + (if all {
        seq![]
    } else if overdue {
        seq!['o', 'v', 'e', 'r', 'd', 'u', 'e', ' ', 'p', 'e', 'n', 'd', 'i', 'n', 'g', ' ']
    } else {
        seq!['p', 'e', 'n', 'd', 'i', 'n', 'g', ' ']
    }) + seq!['h', 'o', 'm', 'e', 'w', 'o', 'r', 'k', '.']
}

pub fn empty_homework_message(all: bool, overdue: bool) -> (r: String)
    ensures
        r@ == empty_homework_message_spec(all, overdue),
{
    let mut m = vec!['N', 'o', ' '];
    if all {
    } else if overdue {
        extend_chars(&mut m, &vec!['o', 'v', 'e', 'r', 'd', 'u', 'e', ' ', 'p', 'e', 'n', 'd', 'i', 'n', 'g', ' ']);
    } else {
        extend_chars(&mut m, &vec!['p', 'e', 'n', 'd', 'i', 'n', 'g', ' ']);
    }
    extend_chars(&mut m, &vec!['h', 'o', 'm', 'e', 'w', 'o', 'r', 'k', '.']);
    string_of(&m)
}

/// The courses whose name contains the filter text, in order; all of them without one.
pub open spec fn courses_matching_spec(courses: Seq<Course>, filter: Option<Seq<char>>) -> Seq<Course>
    decreases courses.len(),
{
    if courses.len() == 0 {
        seq![]
    } else {
        let rest = courses_matching_spec(courses.drop_last(), filter);
        let keep = match filter {
            Some(f) => contains_seq(courses.last().name@, f),
            None => true,
        };
        if keep {
            rest.push(courses.last())
        } else {
            rest
        }
    }
}

/// The courses whose files are listed: those whose name contains `filter`, or all.
pub fn courses_matching(courses: Vec<Course>, filter: Option<&str>) -> (r: Vec<Course>)
    ensures
        r@ == courses_matching_spec(
            courses@,
            match filter {
                Some(f) => Some(f@),
                None => None,
            },
        ),
{
    let ghost orig = courses@;
    let ghost fv = match filter {
        Some(f) => Some(f@),
        None => None::<Seq<char>>,
    };
    let fc: Option<Vec<char>> = match filter {
        Some(f) => Some(chars_of(f)),
        None => None,
    };
    let mut rest = courses;
    let mut out: Vec<Course> = Vec::new();
    let mut i: usize = 0;
    let n = rest.len();
    assert(orig.take(0) =~= seq![]);
    while rest.len() > 0
        invariant
            n == orig.len(),
            i <= n,
            rest@ == orig.skip(i as int),
            fc matches Some(v) ==> fv == Some(v@),
            fc is None ==> fv is None,
            out@ == courses_matching_spec(orig.take(i as int), fv),
        decreases rest.len(),
    {
        let c = rest.remove(0);
        assert(c == orig[i as int]);
        assert(rest@ =~= orig.skip(i + 1));
        assert(orig.take(i + 1).drop_last() == orig.take(i as int));
        assert(orig.take(i + 1).last() == c);
        let keep = match &fc {
            Some(f) => contains_text(c.name.as_str(), f),
            None => true,
        };
        if keep {
            out.push(c);
        }
        i += 1;
    }
    assert(orig.take(n as int) == orig);
    out
}

pub open spec fn courseware_marker() -> Seq<char> {
    seq!['_', 'K', 'J', '_']
}

pub open spec fn homework_file_marker() -> Seq<char> {
    seq!['_', 'Z', 'Y', '_']
}

/// Full file IDs (`wjid`) carry `_KJ_` or `_ZY_` and are downloaded as given; anything
/// else is a short ID to look up.
pub fn is_full_file_id(id: &str) -> (r: bool)
    ensures
        r == (contains_seq(id@, courseware_marker()) || contains_seq(id@, homework_file_marker())),
{
    contains_text(id, &vec!['_', 'K', 'J', '_']) || contains_text(id, &vec!['_', 'Z', 'Y', '_'])
}

/// The name a downloaded file is saved under: the server's file name, or `<id>.bin`.
pub fn download_file_name(server_name: Option<String>, file_id: &str) -> (r: String)
    ensures
        r@ == match server_name {
            Some(n) => n@,
            None => file_id@ + seq!['.', 'b', 'i', 'n'],
        },
{
    match server_name {
        Some(n) => n,
        None => {
            let mut v = chars_of(file_id);
            extend_chars(&mut v, &vec!['.', 'b', 'i', 'n']);
            string_of(&v)
        },
    }
}

} // verus!
