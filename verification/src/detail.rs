//! The lines printed when one homework, announcement or course file is shown.
use vstd::prelude::*;
use crate::deadline::{format_local_minute, four_digit_year_millis, local_minute_text};
use crate::listing::{course_shown, previous_course_text};
use crate::models::{short_id, short_id_spec, status_label, CourseFile, Homework, HomeworkAttachment, Notification};
use crate::table::{paint, paint_text, Style};
use crate::text::{chars_of, extend_chars, string_of};

verus! {

broadcast use vstd::string::group_string_axioms;

pub open spec fn dot_separator() -> Seq<char> {
    seq![' ', '\u{b7}', ' ']
}

/// `# course | title`, the course in bold.
pub open spec fn heading_spec(course: Seq<char>, title: Seq<char>, color: bool) -> Seq<char> {
    seq!['#', ' '] + paint(Style::Bold, course, color) + seq![' ', '|', ' '] + title
}

pub fn detail_heading(course: &str, title: &str, color: bool) -> (r: String)
    ensures
        r@ == heading_spec(course@, title@, color),
{
    let mut v = vec!['#', ' '];
    extend_chars(&mut v, &chars_of(paint_text(Style::Bold, course, color).as_str()));
    extend_chars(&mut v, &vec![' ', '|', ' ']);
    extend_chars(&mut v, &chars_of(title));
    string_of(&v)
}

/// The heading of a homework: its course (or a placeholder) and its title.
pub fn homework_heading(h: &Homework, color: bool) -> (r: String)
    ensures
        r@ == heading_spec(course_shown(*h), h.title@, color),
{
    proof {
        reveal_strlit("(previous course)");
    }
    let course: &str = if h.course_name.as_str().unicode_len() == 0 {
        "(previous course)"
    } else {
        h.course_name.as_str()
    };
    assert(course@ == course_shown(*h));
    detail_heading(course, h.title.as_str(), color)
}

/// A deadline as shown: formatted in local time (`YYYY-MM-DD HH:MM`) when it was read,
/// else the raw server text. The local minute is the UTC minute of the deadline moved by
/// the machine's zone offset, which is under a day and not known here.
pub fn deadline_display(deadline: Option<i64>, deadline_raw: &str) -> (r: String)
    ensures
        deadline is None ==> r@ == deadline_raw@,
        deadline matches Some(d) ==> (four_digit_year_millis(d as int) ==> local_minute_text(
            d as int,
            r@,
        )),
{
    match deadline {
        Some(d) => format_local_minute(d),
        None => deadline_raw.to_string(),
    }
}

/// `Status: <status>   Deadline: <deadline>`.
pub open spec fn status_line_spec(status: Seq<char>, deadline: Seq<char>) -> Seq<char> {
    seq!['S', 't', 'a', 't', 'u', 's', ':', ' '] + status + seq![
        ' ',
        ' ',
        ' ',
        'D',
        'e',
        'a',
        'd',
        'l',
        'i',
        'n',
        'e',
        ':',
        ' ',
    ] + deadline
}

pub fn homework_status_line(h: &Homework, deadline_shown: &str) -> (r: String)
    ensures
        r@ == status_line_spec(status_label(h.status), deadline_shown@),
{
    let mut v = vec!['S', 't', 'a', 't', 'u', 's', ':', ' '];
    extend_chars(&mut v, &chars_of(h.status.label()));
    extend_chars(&mut v, &vec![' ', ' ', ' ', 'D', 'e', 'a', 'd', 'l', 'i', 'n', 'e', ':', ' ']);
    extend_chars(&mut v, &chars_of(deadline_shown));
    string_of(&v)
}

/// `Grade: <grade>`, followed, when the grading time is known, by the grader (if known)
/// and the time, dimmed: `  (grader · time)`.
pub open spec fn grade_line_spec(h: Homework, color: bool) -> Option<Seq<char>> {
    match h.grade {
        Some(g) => {
            let who = if h.grader@.len() == 0 {
                seq![]
            } else {
                h.grader@ + dot_separator()
            };
            let extra = if h.grade_time@.len() == 0 {
                seq![]
            } else {
                seq![' ', ' '] + paint(Style::Dimmed, seq!['('] + who + h.grade_time@ + seq![')'], color)
            };
            Some(seq!['G', 'r', 'a', 'd', 'e', ':', ' '] + g@ + extra)
        },
        None => None,
    }
}

pub fn homework_grade_line(h: &Homework, color: bool) -> (r: Option<String>)
    ensures
        match grade_line_spec(*h, color) {
            Some(t) => r matches Some(x) && x@ == t,
            None => r is None,
        },
{
    match &h.grade {
        Some(g) => {
            let mut v = vec!['G', 'r', 'a', 'd', 'e', ':', ' '];
            extend_chars(&mut v, &chars_of(g.as_str()));
            if h.grade_time.as_str().unicode_len() > 0 {
                let mut inner = vec!['('];
                if h.grader.as_str().unicode_len() > 0 {
                    extend_chars(&mut inner, &chars_of(h.grader.as_str()));
                    extend_chars(&mut inner, &vec![' ', '\u{b7}', ' ']);
                }
                extend_chars(&mut inner, &chars_of(h.grade_time.as_str()));
                inner.push(')');
                extend_chars(&mut v, &vec![' ', ' ']);
                let dimmed = paint_text(Style::Dimmed, string_of(&inner).as_str(), color);
                extend_chars(&mut v, &chars_of(dimmed.as_str()));
            }
            Some(string_of(&v))
        },
        None => None,
    }
}

/// `  [section] file name`.
pub open spec fn attachment_line_spec(a: HomeworkAttachment) -> Seq<char> {
    seq![' ', ' ', '['] + a.section@ + seq![']', ' '] + a.filename@
}

pub fn attachment_line(a: &HomeworkAttachment) -> (r: String)
    ensures
        r@ == attachment_line_spec(*a),
{
    let mut v = vec![' ', ' ', '['];
    extend_chars(&mut v, &chars_of(a.section.as_str()));
    extend_chars(&mut v, &vec![']', ' ']);
    extend_chars(&mut v, &chars_of(a.filename.as_str()));
    string_of(&v)
}

/// One attachment line per attachment, each ended by a line feed.
pub open spec fn attachment_lines_spec(atts: Seq<HomeworkAttachment>) -> Seq<char>
    decreases atts.len(),
{
    if atts.len() == 0 {
        seq![]
    } else {
        attachment_lines_spec(atts.drop_last()) + attachment_line_spec(atts.last()) + seq!['\n']
    }
}

/// A titled section after a blank line: `\n<title>\n<body>\n`, or nothing when the body
/// is empty.
pub open spec fn section_spec(title: Seq<char>, body: Seq<char>) -> Seq<char> {
    if body.len() == 0 {
        seq![]
    } else {
        seq!['\n'] + title + seq!['\n'] + body + seq!['\n']
    }
}

pub open spec fn description_title() -> Seq<char> {
    seq!['D', 'e', 's', 'c', 'r', 'i', 'p', 't', 'i', 'o', 'n']
}

pub open spec fn comment_title() -> Seq<char> {
    seq!['C', 'o', 'm', 'm', 'e', 'n', 't']
}

/// What follows a homework's grade line: its description and the grader's comment, each
/// when there is one, then its attachments or `(No attachments)`; every line ends with a
/// line feed and each part starts with a blank line.
pub open spec fn homework_body_spec(
    desc: Seq<char>,
    comment: Seq<char>,
    atts: Seq<HomeworkAttachment>,
) -> Seq<char> {
    section_spec(description_title(), desc) + section_spec(comment_title(), comment) + (if atts.len()
        == 0 {
        seq!['\n', '(', 'N', 'o', ' ', 'a', 't', 't', 'a', 'c', 'h', 'm', 'e', 'n', 't', 's', ')', '\n']
    } else {
        seq!['\n', 'A', 't', 't', 'a', 'c', 'h', 'm', 'e', 'n', 't', 's', '\n']
            + attachment_lines_spec(atts)
    })
}

fn push_section(v: &mut Vec<char>, title: &[char], body: &str)
    ensures
        final(v)@ == old(v)@ + section_spec(title@, body@),
{
    if body.unicode_len() > 0 {
        v.push('\n');
        extend_chars(v, title);
        v.push('\n');
        extend_chars(v, &chars_of(body));
        v.push('\n');
    }
}

pub fn homework_body(desc: &str, comment: &str, atts: &[HomeworkAttachment]) -> (r: String)
    ensures
        r@ == homework_body_spec(desc@, comment@, atts@),
{
    let mut v: Vec<char> = Vec::new();
    push_section(&mut v, &['D', 'e', 's', 'c', 'r', 'i', 'p', 't', 'i', 'o', 'n'], desc);
    push_section(&mut v, &['C', 'o', 'm', 'm', 'e', 'n', 't'], comment);
    let ghost head = v@;
    if atts.len() == 0 {
        extend_chars(
            &mut v,
            &['\n', '(', 'N', 'o', ' ', 'a', 't', 't', 'a', 'c', 'h', 'm', 'e', 'n', 't', 's', ')', '\n'],
        );
    } else {
        extend_chars(&mut v, &['\n', 'A', 't', 't', 'a', 'c', 'h', 'm', 'e', 'n', 't', 's', '\n']);
        let ghost top = v@;
        let mut i: usize = 0;
        assert(atts@.take(0) =~= Seq::<HomeworkAttachment>::empty());
        while i < atts.len()
            invariant
                i <= atts@.len(),
                v@ == top + attachment_lines_spec(atts@.take(i as int)),
            decreases atts.len() - i,
        {
            assert(atts@.take(i + 1).drop_last() =~= atts@.take(i as int));
            assert(atts@.take(i + 1).last() == atts@[i as int]);
            extend_chars(&mut v, &chars_of(attachment_line(&atts[i]).as_str()));
            v.push('\n');
            i += 1;
        }
        assert(atts@.take(atts@.len() as int) =~= atts@);
    }
    string_of(&v)
}

/// The line under an announcement's heading, dimmed: publisher, publish time, and a
/// mark while unread.
pub open spec fn announcement_meta_spec(n: Notification, color: bool) -> Seq<char> {
    paint(
        Style::Dimmed,
        n.publisher@ + dot_separator() + n.publish_time@ + (if n.read {
            seq![]
        } else {
            seq![' ', '\u{b7}', ' ', 'u', 'n', 'r', 'e', 'a', 'd']
        }),
        color,
    )
}

pub fn announcement_meta_line(n: &Notification, color: bool) -> (r: String)
    ensures
        r@ == announcement_meta_spec(*n, color),
{
    let mut v = chars_of(n.publisher.as_str());
    extend_chars(&mut v, &vec![' ', '\u{b7}', ' ']);
    extend_chars(&mut v, &chars_of(n.publish_time.as_str()));
    if !n.read {
        extend_chars(&mut v, &vec![' ', '\u{b7}', ' ', 'u', 'n', 'r', 'e', 'a', 'd']);
    }
    paint_text(Style::Dimmed, string_of(&v).as_str(), color)
}

/// The line under a file's heading, dimmed: type, size and upload time.
pub open spec fn file_meta_spec(f: CourseFile, color: bool) -> Seq<char> {
    paint(
        Style::Dimmed,
        f.file_type@ + dot_separator() + f.size@ + dot_separator() + f.upload_time@,
        color,
    )
}

pub fn file_meta_line(f: &CourseFile, color: bool) -> (r: String)
    ensures
        r@ == file_meta_spec(*f, color),
{
    let mut v = chars_of(f.file_type.as_str());
    extend_chars(&mut v, &vec![' ', '\u{b7}', ' ']);
    extend_chars(&mut v, &chars_of(f.size.as_str()));
    extend_chars(&mut v, &vec![' ', '\u{b7}', ' ']);
    extend_chars(&mut v, &chars_of(f.upload_time.as_str()));
    paint_text(Style::Dimmed, string_of(&v).as_str(), color)
}

/// The hint under a file: `Download: thu-learn f get <short id>`.
pub open spec fn download_hint_spec(f: CourseFile) -> Seq<char> {
    seq!['D', 'o', 'w', 'n', 'l', 'o', 'a', 'd', ':', ' ', 't', 'h', 'u', '-', 'l', 'e', 'a', 'r', 'n', ' ', 'f', ' ', 'g', 'e', 't', ' ']
        + short_id_spec(f.id@)
}

pub fn file_download_hint(f: &CourseFile) -> (r: String)
    ensures
        r@ == download_hint_spec(*f),
{
    let mut v = vec!['D', 'o', 'w', 'n', 'l', 'o', 'a', 'd', ':', ' ', 't', 'h', 'u', '-', 'l', 'e', 'a', 'r', 'n', ' ', 'f', ' ', 'g', 'e', 't', ' '];
    extend_chars(&mut v, &chars_of(short_id(f.id.as_str()).as_str()));
    string_of(&v)
}

} // verus!
