use std::hash::{Hash, Hasher};
use thu_learn_cli::models::{short_id, HomeworkStatus};
use thu_learn_cli::paths::{cache_dir, cache_dir_in, cache_file_in, cookie_path, cookie_path_in};

#[test]
fn homework_status_labels_are_english() {
    assert_eq!(HomeworkStatus::Pending.label(), "Pending");
    assert_eq!(HomeworkStatus::Submitted.label(), "Submitted");
    assert_eq!(HomeworkStatus::Graded.label(), "Graded");
}

#[test]
fn short_ids_are_seven_hex_digits_and_stable() {
    let a = short_id("student-homework-one");
    assert_eq!(a.len(), 7);
    assert!(a.chars().all(|c| c.is_ascii_hexdigit() && !c.is_ascii_uppercase()));
    assert_eq!(a, short_id("student-homework-one"));
    let mut h = std::collections::hash_map::DefaultHasher::new();
    "student-homework-one".hash(&mut h);
    assert_eq!(a, format!("{:07x}", h.finish() & 0xfff_ffff));
}

fn home() -> std::path::PathBuf {
    directories::BaseDirs::new().unwrap().home_dir().to_path_buf()
}

#[test]
fn cookie_path_uses_config_dir() {
    let home = home();
    let path = std::path::PathBuf::from(cookie_path().unwrap());

    assert!(path.is_absolute());
    assert!(path.starts_with(&home));
    assert!(path.ends_with(".config/thu-learn-cli/cookies.json"));
}

#[test]
fn cache_dir_uses_cache_dir() {
    let home = home();
    let path = std::path::PathBuf::from(cache_dir().unwrap());

    assert!(path.is_absolute());
    assert!(path.starts_with(&home));
    assert!(path.ends_with(".cache/thu-learn-cli"));
    assert!(!path.ends_with("cookies.json"));
}

#[test]
fn paths_under_a_given_home() {
    assert_eq!(cookie_path_in("/home/u"), "/home/u/.config/thu-learn-cli/cookies.json");
    assert_eq!(cookie_path_in("/home/u/"), "/home/u/.config/thu-learn-cli/cookies.json");
    assert_eq!(cache_dir_in("/h"), "/h/.cache/thu-learn-cli");
    assert_eq!(cache_file_in("/h/.cache/thu-learn-cli", "semester"), "/h/.cache/thu-learn-cli/semester.json");
}
