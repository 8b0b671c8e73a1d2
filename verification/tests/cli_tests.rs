use thu_learn_cli::cli::{
    completion_cache_key, completion_items_for_announcements, completion_items_for_files,
    completion_items_for_homework, filter_completion_items, format_completion_line,
    prev_semester, resolve_item_by_id, resolve_item_prefix, submit_target, zsh_completion_script,
    CompletionItem, CompletionKind, IdResolution,
};
use thu_learn_cli::models::{short_id, CourseFile, Homework, HomeworkStatus, Notification};

fn homework(student_homework_id: &str, course_name: &str, title: &str) -> Homework {
    Homework {
        student_homework_id: student_homework_id.to_string(),
        base_id: format!("base-{student_homework_id}"),
        course_id: "course-1".to_string(),
        course_name: course_name.to_string(),
        title: title.to_string(),
        deadline: None,
        deadline_raw: "No deadline".to_string(),
        submit_time: String::new(),
        grade: None,
        comment: String::new(),
        grader: String::new(),
        grade_time: String::new(),
        status: HomeworkStatus::Pending,
    }
}

fn item(value: &str, description: &str) -> CompletionItem {
    CompletionItem { value: value.to_string(), description: description.to_string() }
}

#[test]
fn prev_semester_spring_to_fall() {
    assert_eq!(prev_semester("2025-2026-2").as_deref(), Some("2025-2026-1"));
}

#[test]
fn prev_semester_fall_to_prev_year() {
    assert_eq!(prev_semester("2025-2026-1").as_deref(), Some("2024-2025-2"));
}

#[test]
fn prev_semester_invalid() {
    assert!(prev_semester("garbage").is_none());
    assert!(prev_semester("2025-2026").is_none());
}

#[test]
fn prev_semester_summer_term_steps_back_one() {
    assert_eq!(prev_semester("2025-2026-3").as_deref(), Some("2025-2026-2"));
    assert_eq!(prev_semester("2025-2026-x"), None);
}

#[test]
fn completion_items_match_short_id_prefix() {
    let hw = homework("student-homework-one", "Data Structures", "Heap lab");
    let full = short_id(&hw.student_homework_id);
    let prefix = &full[..3];
    let items = completion_items_for_homework(std::slice::from_ref(&hw));
    let matches = filter_completion_items(&items, prefix);

    assert_eq!(matches.len(), 1);
    assert_eq!(matches[0].value, short_id(&hw.student_homework_id));
    assert!(matches[0].description.contains("Data Structures"));
    assert!(matches[0].description.contains("Heap lab"));
    assert_eq!(
        format_completion_line(&matches[0]),
        format!("{}\t{}", short_id(&hw.student_homework_id), matches[0].description)
    );
}

#[test]
fn completion_candidates_come_sorted_and_filtered() {
    let items = vec![item("b2", "two"), item("a1", "one"), item("b1", "three"), item("b2", "four")];
    let all = filter_completion_items(&items, "");
    let values: Vec<&str> = all.iter().map(|i| i.value.as_str()).collect();
    assert_eq!(values, vec!["a1", "b1", "b2", "b2"]);
    // Equal values keep their order.
    assert_eq!(all[2].description, "two");
    assert_eq!(all[3].description, "four");
    let bs = filter_completion_items(&items, "b");
    assert_eq!(bs.len(), 3);
    assert!(filter_completion_items(&items, "c").is_empty());
}

#[test]
fn completion_descriptions_join_course_and_title() {
    let hw = homework("id-1", "Data Structures", "Heap lab");
    let items = completion_items_for_homework(&[hw]);
    assert_eq!(items[0].description, "Data Structures | Heap lab");

    let note = Notification {
        id: "n-1".to_string(),
        course_id: "c".to_string(),
        course_name: "OS".to_string(),
        title: "Exam".to_string(),
        publish_time: String::new(),
        publisher: String::new(),
        read: false,
        content: String::new(),
    };
    let items = completion_items_for_announcements(&[note]);
    assert_eq!(items[0].value, short_id("n-1"));
    assert_eq!(items[0].description, "OS | Exam");

    let file = CourseFile {
        id: "f-1".to_string(),
        course_id: "c".to_string(),
        course_name: "OS".to_string(),
        title: "Slides".to_string(),
        size: String::new(),
        file_type: String::new(),
        upload_time: String::new(),
        description: String::new(),
    };
    let items = completion_items_for_files(&[file]);
    assert_eq!(items[0].description, "OS | Slides");
}

#[test]
fn completion_line_replaces_tabs_in_description() {
    assert_eq!(format_completion_line(&item("abc", "a\tb")), "abc\ta b");
}

#[test]
fn completion_cache_keys() {
    assert_eq!(completion_cache_key(CompletionKind::Homework), "completion_homework");
    assert_eq!(completion_cache_key(CompletionKind::Announcement), "completion_announcement");
    assert_eq!(completion_cache_key(CompletionKind::File), "completion_file");
}

fn colliding_ids() -> (String, String, String) {
    let first = "student-homework-one".to_string();
    let shared_prefix = short_id(&first).chars().next().expect("short IDs are never empty").to_string();
    let second = (0..1000)
        .map(|idx| format!("second-homework-{idx}"))
        .find(|id| short_id(id).starts_with(&shared_prefix))
        .expect("one hex-prefix collision should exist in 1000 attempts");
    (first, second, shared_prefix)
}

#[test]
fn id_prefix_resolution_rejects_ambiguous_matches() {
    let (first, second, shared_prefix) = colliding_ids();
    let ids = vec![first, second];

    let err = resolve_item_by_id(&ids, &shared_prefix, "Homework", "run `thu-learn hw -a` to list IDs")
        .unwrap_err();

    assert!(err.to_string().contains("ambiguous"));
}

#[test]
fn id_resolution_finds_full_ids_and_short_ids() {
    let ids = vec!["alpha".to_string(), "beta".to_string()];
    assert!(matches!(resolve_item_prefix(&ids, "beta"), IdResolution::Found(1)));
    assert!(matches!(resolve_item_prefix(&ids, &short_id("alpha")), IdResolution::Found(0)));
    assert_eq!(resolve_item_by_id(&ids, &short_id("beta"), "File", "hint"), Ok(1));
    assert!(matches!(resolve_item_prefix(&ids, "gamma"), IdResolution::NotFound));
    assert_eq!(
        resolve_item_by_id(&ids, "gamma", "File", "run `thu-learn f ls` to list IDs"),
        Err("File ID not found: gamma (run `thu-learn f ls` to list IDs)".to_string())
    );
}

#[test]
fn submit_target_keeps_unknown_full_ids_and_rejects_ambiguity() {
    let (first, second, shared_prefix) = colliding_ids();
    let ids = vec![first.clone(), second.clone()];
    assert_eq!(submit_target(&ids, &short_id(&first)), Ok(first.clone()));
    assert_eq!(submit_target(&ids, "some-full-id"), Ok("some-full-id".to_string()));
    let err = submit_target(&ids, &shared_prefix).unwrap_err();
    assert_eq!(
        err,
        format!(
            "Homework ID prefix is ambiguous: {shared_prefix} (candidates: {}, {})",
            short_id(&first),
            short_id(&second)
        )
    );
}

#[test]
fn zsh_completion_script_uses_cached_candidate_command() {
    let script = zsh_completion_script();

    assert!(script.contains("#compdef thu-learn"));
    assert!(script.contains("__complete"));
    assert!(script.contains("_thu_learn_cached_ids homework"));
    assert!(script.contains("_thu_learn_cached_ids file"));
}
