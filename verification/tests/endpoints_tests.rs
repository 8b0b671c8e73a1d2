use thu_learn_cli::endpoints::{
    attachments_page_url, course_list_url, courses_cache_key, file_download_url, file_list_url,
    homework_detail_form, homework_detail_url, homework_list_form, homework_sources,
    learn_origin, notification_ao_data, notification_form, notification_list_url,
    semester_cache_key_text, semester_url, submission_file_field, submission_file_name,
    submission_form, submit_url,
};
use thu_learn_cli::login::cookie_insert_url;
use thu_learn_cli::models::HomeworkStatus;

const LEARN: &str = "https://learn.tsinghua.edu.cn";

fn pair(a: &str, b: &str) -> (String, String) {
    (a.to_string(), b.to_string())
}

#[test]
fn request_urls() {
    assert_eq!(learn_origin(), LEARN);
    assert_eq!(semester_url(), format!("{LEARN}/b/kc/zhjw_v_code_xnxq/getCurrentAndNextSemester"));
    assert_eq!(
        course_list_url("2025-2026-2"),
        format!("{LEARN}/b/wlxt/kc/v_wlkc_xs_xkb_kcb_extend/student/loadCourseBySemesterId/2025-2026-2/zh")
    );
    assert_eq!(homework_detail_url(), format!("{LEARN}/b/wlxt/kczy/zy/student/detail"));
    assert_eq!(
        attachments_page_url("K1", "X1"),
        format!("{LEARN}/f/wlxt/kczy/zy/student/viewCj?wlkcid=K1&xszyid=X1")
    );
    assert_eq!(notification_list_url(), format!("{LEARN}/b/wlxt/kcgg/wlkc_ggb/student/pageListXsbyWgq"));
    assert_eq!(notification_ao_data("K1"), r#"[{"name":"wlkcid","value":"K1"}]"#);
    assert_eq!(
        file_list_url("K1"),
        format!("{LEARN}/b/wlxt/kj/wlkc_kjxxb/student/kjxxbByWlkcidAndSizeForStudent?wlkcid=K1&size=200")
    );
    assert_eq!(
        file_download_url("W1"),
        format!("{LEARN}/b/wlxt/kj/wlkc_kjxxb/student/downloadFile?sfgk=0&wjid=W1")
    );
    assert_eq!(submit_url(), format!("{LEARN}/b/wlxt/kczy/zy/student/tjzy"));
}

#[test]
fn homework_sources_cover_three_statuses() {
    let s = homework_sources();
    assert_eq!(s.len(), 3);
    assert_eq!(s[0], (format!("{LEARN}/b/wlxt/kczy/zy/student/zyListWj"), HomeworkStatus::Pending));
    assert_eq!(s[1], (format!("{LEARN}/b/wlxt/kczy/zy/student/zyListYjwg"), HomeworkStatus::Submitted));
    assert_eq!(s[2], (format!("{LEARN}/b/wlxt/kczy/zy/student/zyListYpg"), HomeworkStatus::Graded));
}

#[test]
fn cache_keys() {
    assert_eq!(semester_cache_key_text(), "semester");
    assert_eq!(courses_cache_key("2025-2026-2"), "courses_2025-2026-2");
}

#[test]
fn request_forms() {
    assert_eq!(homework_list_form(), vec![pair("aoData", "[]")]);
    assert_eq!(notification_form("K1"), vec![pair("aoData", r#"[{"name":"wlkcid","value":"K1"}]"#)]);
    assert_eq!(homework_detail_form("Z1"), vec![pair("id", "Z1")]);
    assert_eq!(
        submission_form("X1", "done"),
        vec![pair("xszyid", "X1"), pair("isDeleted", "0"), pair("zynr", "done")]
    );
    assert_eq!(submission_file_field(), "fileupload");
    assert_eq!(submission_file_name(None), "submission");
    assert_eq!(submission_file_name(Some("a.pdf".to_string())), "a.pdf");
}

#[test]
fn cookie_insert_urls_parse() {
    assert_eq!(cookie_insert_url(".tsinghua.edu.cn").unwrap().as_str(), "https://learn.tsinghua.edu.cn/");
    assert_eq!(cookie_insert_url("id.tsinghua.edu.cn").unwrap().host_str(), Some("id.tsinghua.edu.cn"));
    assert!(cookie_insert_url("").is_none());
    assert!(cookie_insert_url("bad host").is_none());
}
