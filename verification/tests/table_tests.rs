use thu_learn_cli::table::sanitize_table_text;

#[test]
fn cleaning_a_cell_twice_changes_nothing() {
    let raw = "a\u{1b}[31mb\u{1b}[0m\u{200b}\tc\u{1b}]8;;http://x\u{7}d\u{9b}2Je";
    let once = sanitize_table_text(raw);
    assert_eq!(once, "ab cde");
    assert_eq!(sanitize_table_text(&once), once);
    assert!(once.chars().count() <= raw.chars().count());
}

#[test]
fn clean_cell_text_is_kept_as_it_is() {
    for s in ["", "plain", "数分2 作业 13", "a-b_c (d)"] {
        assert_eq!(sanitize_table_text(s), s);
    }
}
