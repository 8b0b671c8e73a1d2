use chrono::TimeZone;

/// A local instant as `YYYY-MM-DD HH:MM`.
fn format_local_minute(ms: i64) -> String {
    chrono::Local.timestamp_millis_opt(ms).unwrap().format("%Y-%m-%d %H:%M").to_string()
}
use thu_learn_cli::listing::{
    courses_matching, deadline_texts, download_file_name, empty_homework_message, format_deadline,
    homework_status_cell, is_full_file_id, render_announcement_table, render_course_file_table,
    render_homework_table, render_homework_table_at, select_homework,
};
use thu_learn_cli::models::{short_id, Course, CourseFile, Homework, HomeworkStatus, Notification};
use thu_learn_cli::table::{render_table, TableCell};

/// Removes ANSI SGR escape sequences so layout assertions hold with color on or off.
fn strip_ansi(s: &str) -> String {
    let mut out = String::with_capacity(s.len());
    let mut chars = s.chars();
    while let Some(c) = chars.next() {
        if c == '\u{1b}' {
            for skip in chars.by_ref() {
                if skip == 'm' {
                    break;
                }
            }
        } else {
            out.push(c);
        }
    }
    out
}

fn local_ms(year: i32, month: u32, day: u32, hour: u32, minute: u32) -> i64 {
    chrono::Local
        .with_ymd_and_hms(year, month, day, hour, minute, 0)
        .single()
        .unwrap()
        .timestamp_millis()
}

fn homework(
    student_homework_id: &str,
    course_name: &str,
    title: &str,
    deadline: Option<i64>,
    grade: Option<&str>,
    status: HomeworkStatus,
) -> Homework {
    Homework {
        student_homework_id: student_homework_id.to_string(),
        base_id: format!("base-{student_homework_id}"),
        course_id: "course-1".to_string(),
        course_name: course_name.to_string(),
        title: title.to_string(),
        deadline,
        deadline_raw: "No deadline".to_string(),
        submit_time: String::new(),
        grade: grade.map(str::to_string),
        comment: String::new(),
        grader: String::new(),
        grade_time: String::new(),
        status,
    }
}

fn notification(id: &str, read: bool) -> Notification {
    Notification {
        id: id.to_string(),
        course_id: "course-1".to_string(),
        course_name: "Operating Systems".to_string(),
        title: if read { "Slides posted" } else { "Exam notice" }.to_string(),
        publish_time: "2026-06-01 09:00".to_string(),
        publisher: "Teacher".to_string(),
        read,
        content: String::new(),
    }
}

fn course_file(id: &str) -> CourseFile {
    CourseFile {
        id: id.to_string(),
        course_id: "course-1".to_string(),
        course_name: "Operating Systems".to_string(),
        title: "Lecture 讲义.pdf".to_string(),
        size: "1.5 MB".to_string(),
        file_type: "pdf".to_string(),
        upload_time: "2026-06-02 10:30".to_string(),
        description: String::new(),
    }
}

#[test]
fn table_renderer_pads_wide_unicode_cells() {
    for color in [false, true] {
        let table = render_table(
            &["Name", "Value"],
            &[
                vec![TableCell::plain("作业"), TableCell::plain("x")],
                vec![TableCell::plain("abc"), TableCell::plain("y")],
            ],
            color,
        );

        let expected = [
            "╭──────┬───────╮\n",
            "│ Name │ Value │\n",
            "├──────┼───────┤\n",
            "│ 作业 │ x     │\n",
            "│ abc  │ y     │\n",
            "╰──────┴───────╯",
        ]
        .concat();
        assert_eq!(strip_ansi(&table), expected);
    }
}

#[test]
fn table_renderer_removes_terminal_control_sequences_from_cells() {
    let table = render_table(
        &["Title", "Published"],
        &[vec![
            TableCell::styled(
                "WeChat Group for \"Physics(1)\"\u{200b}\u{1b}[118;1:3u",
                "WeChat Group for \"Physics(1)\"\u{200b}\u{1b}[118;1:3u".to_string(),
            ),
            TableCell::plain("2026-02-25 21:19"),
        ]],
        true,
    );

    assert!(!table.contains("\u{1b}[118;1:3u"));
    assert!(!table.contains('\u{200b}'));
    let table = strip_ansi(&table);
    assert!(table.contains("WeChat Group for \"Physics(1)\""));
    assert!(table.contains("│ WeChat Group for \"Physics(1)\" │"));
}

#[test]
fn table_colors_borders_and_headers() {
    let table = render_table(&["A"], &[vec![TableCell::plain("x")]], true);
    let first = table.lines().next().unwrap();
    assert_eq!(first, "\u{1b}[2m╭───╮\u{1b}[0m");
    let header = table.lines().nth(1).unwrap();
    assert_eq!(header, "\u{1b}[2m│\u{1b}[0m \u{1b}[1mA\u{1b}[0m \u{1b}[2m│\u{1b}[0m");
}

#[test]
fn homework_table_includes_grade_only_when_present() {
    let now = local_ms(2026, 6, 1, 12, 0);
    let ungraded = homework(
        "student-homework-one",
        "Data Structures",
        "Heap lab",
        Some(local_ms(2026, 6, 5, 23, 59)),
        None,
        HomeworkStatus::Pending,
    );
    let graded = homework(
        "student-homework-two",
        "Computer Networks",
        "Protocol report",
        Some(local_ms(2026, 6, 7, 10, 0)),
        Some("95"),
        HomeworkStatus::Graded,
    );

    let with_grade = render_homework_table(&[ungraded.clone(), graded.clone()], now, true);
    // Line 0 is the top border; the header row is line 1.
    let header = with_grade.lines().nth(1).unwrap();
    assert!(header.contains("ID"));
    assert!(header.contains("Status"));
    assert!(header.contains("Course"));
    assert!(header.contains("Title"));
    assert!(header.contains("Deadline"));
    assert!(header.contains("Grade"));
    assert!(with_grade.contains(&short_id("student-homework-one")));
    assert!(with_grade.contains("Pending"));
    assert!(with_grade.contains("Data Structures"));
    assert!(with_grade.contains("Heap lab"));
    assert!(with_grade.contains("2026-06-05 23:59"));
    assert!(with_grade.contains("95"));

    let without_grade = render_homework_table(&[ungraded], now, true);
    assert!(!without_grade.lines().nth(1).unwrap().contains("Grade"));
}

#[test]
fn homework_table_marks_missing_course_and_raw_deadline() {
    let hw = homework("id-1", "", "Old lab", None, None, HomeworkStatus::Submitted);
    let table = render_homework_table_at(&[hw], &[String::new()], 0, false);
    let row = table.lines().nth(3).unwrap();
    assert!(row.contains("(previous course)"));
    assert!(row.contains("No deadline"));
    assert!(row.contains("Submitted"));
}

#[test]
fn deadline_notes_follow_the_time_left() {
    let day: i64 = 86_400_000;
    let hour: i64 = 3_600_000;
    let cases = [
        (-1000, "2026-06-05 23:59 (overdue)"),
        (-999, "2026-06-05 23:59 (within 0h today)"),
        (5 * hour + 1, "2026-06-05 23:59 (within 5h today)"),
        (day, "2026-06-05 23:59 (1 days left)"),
        (3 * day + hour, "2026-06-05 23:59 (3 days left)"),
        (10 * day, "2026-06-05 23:59 (10 days left)"),
    ];
    for (remain, expected) in cases {
        let (plain, styled) = deadline_texts("2026-06-05 23:59", remain, 0, false);
        assert_eq!(plain, expected);
        assert_eq!(styled, expected);
    }
    let (_, styled) = deadline_texts("W", -5000, 0, true);
    assert_eq!(styled, "W (\u{1b}[91moverdue\u{1b}[39m)");
    let (_, styled) = deadline_texts("W", 2 * day, 0, true);
    assert_eq!(styled, "W (\u{1b}[33m2 days left\u{1b}[39m)");
    let (_, styled) = deadline_texts("W", 5 * day, 0, true);
    assert_eq!(styled, "W (\u{1b}[32m5 days left\u{1b}[39m)");
}

#[test]
fn format_deadline_uses_raw_text_without_deadline() {
    assert_eq!(
        format_deadline(None, "sometime", 0, true),
        ("sometime".to_string(), "sometime".to_string())
    );
    let d = local_ms(2026, 6, 5, 23, 59);
    let now = local_ms(2026, 6, 1, 12, 0);
    let (plain, _) = format_deadline(Some(d), "", now, false);
    assert_eq!(plain, format!("{} (4 days left)", format_local_minute(d)));
    assert!(plain.starts_with("2026-06-05 23:59"));
}

#[test]
fn status_cells_are_colored_by_status() {
    assert_eq!(homework_status_cell(HomeworkStatus::Submitted, true).text, "\u{1b}[32mSubmitted\u{1b}[39m");
    assert_eq!(homework_status_cell(HomeworkStatus::Graded, true).text, "\u{1b}[36mGraded\u{1b}[39m");
    assert_eq!(homework_status_cell(HomeworkStatus::Pending, true).text, "Pending");
    assert_eq!(homework_status_cell(HomeworkStatus::Graded, true).width, 6);
}

#[test]
fn announcement_table_renders_short_ids_and_read_state() {
    let unread = notification("announcement-unread", false);
    let read = notification("announcement-read", true);
    let table = render_announcement_table(&[unread.clone(), read.clone()], true);

    assert!(table.contains(&short_id(&unread.id)));
    assert!(table.contains("Unread"));
    assert!(table.contains("Exam notice"));
    assert!(table.contains(&short_id(&read.id)));
    assert!(table.contains("Read"));
    assert!(table.contains("Slides posted"));
    assert!(table.contains("\u{1b}[1mExam notice\u{1b}[0m"));
    assert!(!table.contains("\u{1b}[1mSlides posted"));
}

#[test]
fn course_file_table_renders_file_metadata() {
    let file = course_file("course-file-one");
    let table = render_course_file_table(std::slice::from_ref(&file), true);

    assert!(table.contains(&short_id(&file.id)));
    assert!(table.contains("Lecture 讲义.pdf"));
    assert!(table.contains("1.5 MB"));
    assert!(table.contains("2026-06-02 10:30"));
}

#[test]
fn homework_selection_filters_and_orders_by_deadline() {
    let now = 1_000;
    let hws = vec![
        homework("late", "C", "late", Some(5_000), None, HomeworkStatus::Pending),
        homework("none", "C", "none", None, None, HomeworkStatus::Pending),
        homework("past", "C", "past", Some(500), None, HomeworkStatus::Pending),
        homework("soon", "C", "soon", Some(2_000), None, HomeworkStatus::Pending),
        homework("done", "C", "done", Some(1_500), None, HomeworkStatus::Submitted),
    ];
    let ids = |v: Vec<Homework>| v.into_iter().map(|h| h.student_homework_id).collect::<Vec<_>>();
    assert_eq!(ids(select_homework(hws.clone(), false, false, now)), vec!["soon", "late", "none"]);
    assert_eq!(ids(select_homework(hws.clone(), false, true, now)), vec!["past"]);
    assert_eq!(
        ids(select_homework(hws, true, false, now)),
        vec!["past", "done", "soon", "late", "none"]
    );
}

#[test]
fn homework_selection_is_stable_for_equal_deadlines() {
    let hws = vec![
        homework("b", "C", "b", Some(10), None, HomeworkStatus::Graded),
        homework("a", "C", "a", Some(10), None, HomeworkStatus::Graded),
        homework("x", "C", "x", None, None, HomeworkStatus::Graded),
        homework("y", "C", "y", None, None, HomeworkStatus::Graded),
    ];
    let out = select_homework(hws, true, false, 0);
    let ids: Vec<&str> = out.iter().map(|h| h.student_homework_id.as_str()).collect();
    assert_eq!(ids, vec!["b", "a", "x", "y"]);
}

#[test]
fn empty_listing_messages() {
    assert_eq!(empty_homework_message(true, false), "No homework.");
    assert_eq!(empty_homework_message(false, true), "No overdue pending homework.");
    assert_eq!(empty_homework_message(false, false), "No pending homework.");
}

#[test]
fn course_filter_matches_name_substrings() {
    let course = |id: &str, name: &str| Course {
        id: id.to_string(),
        name: name.to_string(),
        teacher: String::new(),
    };
    let courses = vec![course("1", "操作系统"), course("2", "Data Structures"), course("3", "系统分析")];
    let names = |v: Vec<Course>| v.into_iter().map(|c| c.id).collect::<Vec<_>>();
    assert_eq!(names(courses_matching(courses.clone(), Some("系统"))), vec!["1", "3"]);
    assert_eq!(names(courses_matching(courses.clone(), None)), vec!["1", "2", "3"]);
    assert!(courses_matching(courses, Some("Physics")).is_empty());
}

#[test]
fn full_file_ids_and_download_names() {
    assert!(is_full_file_id("2025_KJ_abc"));
    assert!(is_full_file_id("x_ZY_y"));
    assert!(!is_full_file_id("abc1234"));
    assert_eq!(download_file_name(None, "wjid1"), "wjid1.bin");
    assert_eq!(download_file_name(Some("a.pdf".to_string()), "wjid1"), "a.pdf");
}

#[test]
fn plain_listings_hold_no_escapes() {
    let mut hw = homework("id\u{1b}[31m", "Course\u{1b}]0;x\u{7}", "Title\u{9b}1m", Some(5_000), Some("A\u{1b}"), HomeworkStatus::Graded);
    hw.deadline_raw = "raw\u{1b}".to_string();
    let t = render_homework_table(&[hw], 0, false);
    assert!(!t.contains('\u{1b}'));
    let mut n = notification("n\u{1b}", false);
    n.title = "Exam\u{1b}[1m".to_string();
    assert!(!render_announcement_table(&[n], false).contains('\u{1b}'));
    let mut f = course_file("f");
    f.size = "1\u{1b}[2J MB".to_string();
    let t = render_course_file_table(&[f], false);
    assert!(!t.contains('\u{1b}'));
    assert!(t.contains("1 MB"));
}
