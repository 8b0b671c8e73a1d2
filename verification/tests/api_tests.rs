use chrono::TimeZone;

/// A local instant as `YYYY-MM-DD HH:MM`.
fn format_local_minute(ms: i64) -> String {
    chrono::Local.timestamp_millis_opt(ms).unwrap().format("%Y-%m-%d %H:%M").to_string()
}
use thu_learn_cli::api::{
    course_name_of, dump_text, homework_detail_text, parse_course_files, parse_course_list,
    parse_grade, parse_homework_list, parse_notifications, semester_from_response,
    submission_succeeded,
};
use thu_learn_cli::attachments::parse_homework_attachments;
use thu_learn_cli::deadline::{deadline_plan, parse_deadline, DeadlinePlan};
use thu_learn_cli::json::{find_array, pick, JsonValue};
use thu_learn_cli::models::{Course, HomeworkStatus};

fn s(t: &str) -> JsonValue {
    JsonValue::Str(t.to_string())
}

fn n(t: &str) -> JsonValue {
    JsonValue::Number(t.to_string())
}

fn obj(members: Vec<(&str, JsonValue)>) -> JsonValue {
    JsonValue::Object(members.into_iter().map(|(k, v)| (k.to_string(), v)).collect())
}

fn course(id: &str, name: &str) -> Course {
    Course { id: id.to_string(), name: name.to_string(), teacher: "T".to_string() }
}

#[test]
fn parse_deadline_ms_timestamp() {
    let d = parse_deadline("1781568000000").unwrap();
    assert_eq!(d, 1781568000000);
}

#[test]
fn parse_deadline_datetime_string() {
    let d = parse_deadline("2026-06-16 08:00").unwrap();
    assert_eq!(format_local_minute(d), "2026-06-16 08:00");
}

#[test]
fn parse_deadline_date_only_gets_2359() {
    let d = parse_deadline("2026-06-16").unwrap();
    assert_eq!(format_local_minute(d), "2026-06-16 23:59");
}

#[test]
fn parse_deadline_invalid() {
    assert!(parse_deadline("").is_none());
    assert!(parse_deadline("not a date").is_none());
}

#[test]
fn parse_deadline_reads_seconds_and_small_numbers() {
    let d = parse_deadline(" 2026-06-16 08:00:30 ").unwrap();
    let expected = chrono::Local.with_ymd_and_hms(2026, 6, 16, 8, 0, 30).single().unwrap();
    assert_eq!(d, expected.timestamp_millis());
    // A number that is no millisecond timestamp is no deadline either.
    assert_eq!(deadline_plan("12345"), DeadlinePlan::NoDeadline);
    assert_eq!(deadline_plan("1781568000000"), DeadlinePlan::Timestamp(1781568000000));
    assert_eq!(deadline_plan("2026-06-16"), DeadlinePlan::LocalTime(2026, 6, 16, 23, 59, 0, 0));
}

#[test]
fn parse_attachments_extracts_section_name_url() {
    let html = r#"
            <div class="left fl">作业附件</div>
            <span class="ftitle">
            <a target="_blank" href="/f/wlxt/kc/wj_wjb/student/openNewWindow?fileId=ABC&roleType=student&sfgk=0&downloadUrl=/b/wlxt/kczy/zy/student/downloadFile/2025-2026-2151368579/ABC">16.pdf</a>
            </span>
            <div class="left fl">答案附件</div>
            <div class="left fl">评语附件</div>
        "#;
    let atts = parse_homework_attachments(html);
    assert_eq!(atts.len(), 1);
    assert_eq!(atts[0].section, "作业附件");
    assert_eq!(atts[0].filename, "16.pdf");
    assert!(atts[0]
        .download_path
        .ends_with("/b/wlxt/kczy/zy/student/downloadFile/2025-2026-2151368579/ABC"));
    assert!(atts[0].download_path.starts_with("https://learn.tsinghua.edu.cn"));
}

#[test]
fn parse_attachments_sections_defaults_and_absolute_urls() {
    let html = [
        r#"<span class="ftitle"><a href="http://x/y.pdf">y.pdf</a></span>"#,
        r#"<div class="left fl">上交作业附件</div>"#,
        r#"<span class="ftitle"> <a class="k" href="/p?a=1&amp;downloadUrl=/d/1&amp;downloadUrl=/d/2" x="1">&lt;b&gt;z.doc&lt;/b&gt;</a>"#,
        r#"<span class="ftitle"><a href="/empty"></a></span>"#,
        r#"<span class="ftitle"><a href="">nothing</a></span>"#,
    ]
    .concat();
    let atts = parse_homework_attachments(&html);
    assert_eq!(atts.len(), 2);
    assert_eq!(atts[0].section, "Attachment");
    assert_eq!(atts[0].filename, "y.pdf");
    assert_eq!(atts[0].download_path, "http://x/y.pdf");
    assert_eq!(atts[1].section, "上交作业附件");
    assert_eq!(atts[1].filename, "z.doc");
    assert_eq!(atts[1].download_path, "https://learn.tsinghua.edu.cn/d/1&");
    assert!(parse_homework_attachments("no entries").is_empty());
}

#[test]
fn find_array_and_pick() {
    let v = obj(vec![("object", obj(vec![("aaData", JsonValue::Array(vec![n("1"), n("2"), n("3")]))]))]);
    assert_eq!(find_array(&v, &["aaData", "object"]).unwrap().len(), 3);
    let arr = JsonValue::Array(vec![n("1"), n("2")]);
    assert_eq!(find_array(&arr, &["x"]).unwrap().len(), 2);

    let o = obj(vec![("a", s("hi")), ("n", n("42")), ("b", JsonValue::Bool(true))]);
    assert_eq!(pick(&o, &["x", "a"]), "hi");
    assert_eq!(pick(&o, &["n"]), "42");
    assert_eq!(pick(&o, &["b"]), "true");
    assert_eq!(pick(&o, &["missing"]), "");
    assert!(find_array(&o, &["a"]).is_none());
}

#[test]
fn parse_grade_reviewed_sentinel_is_english() {
    let h = obj(vec![("cj", n("-100"))]);
    assert_eq!(parse_grade(&h).as_deref(), Some("Reviewed"));
}

#[test]
fn parse_grade_prefers_level_grades() {
    assert_eq!(parse_grade(&obj(vec![("djzcj", s("A-")), ("cj", n("90"))])).as_deref(), Some("A-"));
    assert_eq!(parse_grade(&obj(vec![("djzcj", s("0")), ("cj", n("90"))])).as_deref(), Some("90"));
    assert_eq!(parse_grade(&obj(vec![("djzcj", s("-100"))])), None);
    assert_eq!(parse_grade(&obj(vec![])), None);
}

#[test]
fn semester_and_course_list() {
    let v = obj(vec![("result", obj(vec![("xnxq", s("2025-2026-2"))]))]);
    assert_eq!(semester_from_response(&v).as_deref(), Some("2025-2026-2"));
    assert_eq!(semester_from_response(&obj(vec![])), None);

    let list = obj(vec![(
        "resultList",
        JsonValue::Array(vec![
            obj(vec![("wlkcid", s("c1")), ("kcm", s("A&amp;B")), ("jsm", s("Li"))]),
            obj(vec![("kcm", s("no id"))]),
        ]),
    )]);
    let courses = parse_course_list(&list).unwrap();
    assert_eq!(courses.len(), 1);
    assert_eq!(courses[0].id, "c1");
    assert_eq!(courses[0].name, "A&B");
    assert_eq!(courses[0].teacher, "Li");
    assert!(parse_course_list(&obj(vec![])).is_none());
    assert_eq!(course_name_of(&courses, "c1"), "A&B");
    assert_eq!(course_name_of(&courses, "c2"), "");
}

#[test]
fn homework_list_backfills_course_names() {
    let courses = vec![course("c1", "Networks")];
    let v = obj(vec![(
        "aaData",
        JsonValue::Array(vec![obj(vec![
            ("xszyid", s("x1")),
            ("zyid", s("z1")),
            ("wlkcid", s("c1")),
            ("bt", s("Lab &lt;1&gt;")),
            ("jzsj", n("1781568000000")),
            ("cj", n("88")),
            ("pynr", s("&lt;p&gt;good&lt;/p&gt;")),
        ])]),
    )]);
    let hws = parse_homework_list(&v, &courses, HomeworkStatus::Graded);
    assert_eq!(hws.len(), 1);
    let h = &hws[0];
    assert_eq!(h.student_homework_id, "x1");
    assert_eq!(h.base_id, "z1");
    assert_eq!(h.course_name, "Networks");
    assert_eq!(h.title, "Lab <1>");
    assert_eq!(h.deadline, Some(1781568000000));
    assert_eq!(h.deadline_raw, "1781568000000");
    assert_eq!(h.grade.as_deref(), Some("88"));
    assert_eq!(h.comment, "good");
    assert_eq!(h.status, HomeworkStatus::Graded);
}

#[test]
fn notifications_and_files() {
    let c = course("c1", "OS");
    let v = obj(vec![(
        "object",
        obj(vec![(
            "aaData",
            JsonValue::Array(vec![obj(vec![
                ("ggid", s("g1")),
                ("bt", s("Exam")),
                ("fbsjStr", s("2026-06-01")),
                ("fbrxm", s("Wang")),
                ("sfyd", s("是")),
                ("ggnrStr", s("&lt;p&gt;hi&lt;/p&gt;")),
            ])]),
        )]),
    )]);
    let notes = parse_notifications(&v, &c);
    assert_eq!(notes.len(), 1);
    assert_eq!(notes[0].id, "g1");
    assert_eq!(notes[0].course_name, "OS");
    assert!(notes[0].read);
    assert_eq!(notes[0].content, "hi");

    let f = obj(vec![(
        "object",
        JsonValue::Array(vec![
            obj(vec![("wjid", s("w1")), ("bt", s("Slides")), ("fileSize", s("2 MB"))]),
            obj(vec![("bt", s("no id"))]),
        ]),
    )]);
    let files = parse_course_files(&f, &c);
    assert_eq!(files.len(), 1);
    assert_eq!(files[0].id, "w1");
    assert_eq!(files[0].size, "2 MB");
}

#[test]
fn detail_and_submission_replies() {
    assert_eq!(homework_detail_text(&obj(vec![("msg", s("&lt;p&gt;Do it&lt;/p&gt;"))])), "Do it");
    assert!(submission_succeeded(&obj(vec![("result", s("SUCCESS"))])));
    assert!(submission_succeeded(&obj(vec![("msg", s("提交成功"))])));
    assert!(!submission_succeeded(&obj(vec![("result", s("error"))])));
}

#[test]
fn dump_text_truncates_long_replies() {
    assert_eq!(dump_text("x", "{}"), "=== x ===\n{}\n");
    let long = "x".repeat(3501);
    let d = dump_text("y", &long);
    assert!(d.ends_with("\n...(truncated)\n"));
    assert_eq!(d.chars().filter(|c| *c == 'x').count(), 3500);
    let exact = "b".repeat(3500);
    assert!(!dump_text("z", &exact).contains("truncated"));
}

#[test]
fn parse_deadline_local_time_is_within_a_day_of_utc_reading() {
    // 2026-06-16 08:00 read as UTC.
    let utc_reading: i64 = 1781568000000 + 8 * 3600 * 1000;
    let d = parse_deadline("2026-06-16 08:00").unwrap();
    assert!((d - utc_reading).abs() < 86_400_000);
}
