use thu_learn_cli::detail::{
    announcement_meta_line, attachment_line, deadline_display, detail_heading, file_download_hint,
    homework_body,
    file_meta_line, homework_grade_line, homework_heading, homework_status_line,
};
use thu_learn_cli::models::{short_id, CourseFile, Homework, HomeworkAttachment, HomeworkStatus, Notification};

fn homework(course: &str, grade: Option<&str>, grader: &str, grade_time: &str) -> Homework {
    Homework {
        student_homework_id: "x1".to_string(),
        base_id: "z1".to_string(),
        course_id: "c1".to_string(),
        course_name: course.to_string(),
        title: "Lab".to_string(),
        deadline: None,
        deadline_raw: "soon".to_string(),
        submit_time: String::new(),
        grade: grade.map(str::to_string),
        comment: String::new(),
        grader: grader.to_string(),
        grade_time: grade_time.to_string(),
        status: HomeworkStatus::Graded,
    }
}

#[test]
fn headings_bold_the_course() {
    assert_eq!(detail_heading("OS", "Exam", false), "# OS | Exam");
    assert_eq!(detail_heading("OS", "Exam", true), "# \u{1b}[1mOS\u{1b}[0m | Exam");
    assert_eq!(homework_heading(&homework("", None, "", ""), false), "# (previous course) | Lab");
}

#[test]
fn homework_lines() {
    let h = homework("OS", Some("A"), "Li", "2026-06-01");
    assert_eq!(deadline_display(None, "soon"), "soon");
    assert_eq!(homework_status_line(&h, "soon"), "Status: Graded   Deadline: soon");
    assert_eq!(homework_grade_line(&h, false).as_deref(), Some("Grade: A  (Li · 2026-06-01)"));
    assert_eq!(
        homework_grade_line(&h, true).as_deref(),
        Some("Grade: A  \u{1b}[2m(Li · 2026-06-01)\u{1b}[0m")
    );
    let anon = homework("OS", Some("B"), "", "2026-06-01");
    assert_eq!(homework_grade_line(&anon, false).as_deref(), Some("Grade: B  (2026-06-01)"));
    let untimed = homework("OS", Some("C"), "Li", "");
    assert_eq!(homework_grade_line(&untimed, false).as_deref(), Some("Grade: C"));
    assert_eq!(homework_grade_line(&homework("OS", None, "", ""), false), None);
    let a = HomeworkAttachment {
        section: "作业附件".to_string(),
        filename: "a.pdf".to_string(),
        download_path: "https://x".to_string(),
    };
    assert_eq!(attachment_line(&a), "  [作业附件] a.pdf");
}

#[test]
fn announcement_and_file_lines() {
    let n = Notification {
        id: "g".to_string(),
        course_id: "c".to_string(),
        course_name: "OS".to_string(),
        title: "Exam".to_string(),
        publish_time: "2026-06-01".to_string(),
        publisher: "Wang".to_string(),
        read: false,
        content: String::new(),
    };
    assert_eq!(announcement_meta_line(&n, false), "Wang · 2026-06-01 · unread");
    let read = Notification { read: true, ..n };
    assert_eq!(announcement_meta_line(&read, true), "\u{1b}[2mWang · 2026-06-01\u{1b}[0m");

    let f = CourseFile {
        id: "w1".to_string(),
        course_id: "c".to_string(),
        course_name: "OS".to_string(),
        title: "Slides".to_string(),
        size: "2 MB".to_string(),
        file_type: "pdf".to_string(),
        upload_time: "2026-06-02".to_string(),
        description: String::new(),
    };
    assert_eq!(file_meta_line(&f, false), "pdf · 2 MB · 2026-06-02");
    assert_eq!(file_download_hint(&f), format!("Download: thu-learn f get {}", short_id("w1")));
}

#[test]
fn deadline_display_shows_minutes_in_local_time() {
    let shown = deadline_display(Some(1781568000000), "raw");
    let c: Vec<char> = shown.chars().collect();
    assert_eq!(c.len(), 16);
    assert_eq!((c[4], c[7], c[10], c[13]), ('-', '-', ' ', ':'));
    for (i, ch) in c.iter().enumerate() {
        if ![4, 7, 10, 13].contains(&i) {
            assert!(ch.is_ascii_digit());
        }
    }
    assert_ne!(shown, "raw");
}

#[test]
fn homework_body_sections() {
    assert_eq!(homework_body("", "", &[]), "\n(No attachments)\n");
    let a = HomeworkAttachment {
        section: "作业附件".to_string(),
        filename: "a.pdf".to_string(),
        download_path: "https://x".to_string(),
    };
    let b = HomeworkAttachment {
        section: "批阅附件".to_string(),
        filename: "b.pdf".to_string(),
        download_path: "https://y".to_string(),
    };
    assert_eq!(
        homework_body("Do it.", "Good", &[a, b]),
        "\nDescription\nDo it.\n\nComment\nGood\n\nAttachments\n  [作业附件] a.pdf\n  [批阅附件] b.pdf\n"
    );
    assert_eq!(homework_body("", "Late", &[]), "\nComment\nLate\n\n(No attachments)\n");
}

#[test]
fn deadline_display_is_the_deadline_within_a_zone_offset() {
    for d in [0i64, 1781568000000, 951868799999, -1] {
        let shown = deadline_display(Some(d), "raw");
        let read = chrono::NaiveDateTime::parse_from_str(&shown, "%Y-%m-%d %H:%M").unwrap();
        let as_utc = read.and_utc().timestamp_millis();
        assert!((as_utc - d).abs() < 86_400_000 + 60_000);
    }
}
