use amont::gate_stamp::{
    bind, commit_trees, marker_body, note_gates, noted_objects, read_marker, stamp_key, stamp_note, FORMAT,
};

fn strings(xs: &[&str]) -> Vec<String> {
    xs.iter().map(|s| s.to_string()).collect()
}

#[test]
fn the_marker_is_the_format_the_tree_and_one_gate_per_line() {
    let body = marker_body("t1", &strings(&["typecheck", "test"]));
    assert_eq!(body, "amont-gate-v1\nt1\ntypecheck\ntest\n");
    assert_eq!(read_marker(&body), Some(("t1".to_string(), strings(&["typecheck", "test"]))));
}

#[test]
fn a_recorded_marker_becomes_a_stamp_on_the_matching_commit() {
    let body = marker_body("abc", &strings(&["test"]));
    assert_eq!(bind(&body, "abc"), Some(strings(&["test"])));
    assert_eq!(stamp_note(&strings(&["test"])), "amont-gate-v1 test");
}

#[test]
fn a_marker_for_a_different_tree_stamps_nothing() {
    let body = marker_body("abc", &strings(&["test"]));
    assert_eq!(bind(&body, "def"), None);
}

#[test]
fn a_marker_in_an_unknown_format_stamps_nothing() {
    assert_eq!(read_marker("amont-gate-v0\nabc\ntest\n"), None);
    assert_eq!(read_marker(&format!("{FORMAT}\nabc\n")), None, "a marker naming no gate");
    assert_eq!(read_marker(&format!("{FORMAT}\n")), None, "a marker cut short");
    assert_eq!(read_marker(""), None);
    assert_eq!(read_marker(&format!("{FORMAT}\nabc\n\n  \ntest\n")), Some(("abc".to_string(), strings(&["test"]))));
}

#[test]
fn a_foreign_note_is_not_a_stamp() {
    assert_eq!(note_gates("hello world"), None);
    assert_eq!(note_gates(""), None);
    assert_eq!(note_gates("amont-gate-v1 a b\nsecond line"), Some(strings(&["a", "b"])));
    assert_eq!(note_gates("amont-gate-v1"), Some(Vec::new()));
    let written = stamp_note(&strings(&["pre-push-pytest", "typecheck"]));
    assert_eq!(note_gates(&written), Some(strings(&["pre-push-pytest", "typecheck"])));
}

#[test]
fn a_stamp_survives_a_commit_being_rewritten_with_the_same_tree() {
    let noted = noted_objects("blob1 tree1\nblob2 c2\n\n");
    assert_eq!(noted, strings(&["tree1", "c2"]));
    let trees = commit_trees("c9 tree1\nc2 tree2\nmalformed\n");
    assert_eq!(
        trees,
        vec![("c9".to_string(), "tree1".to_string()), ("c2".to_string(), "tree2".to_string())]
    );
    assert_eq!(stamp_key("c2", &noted, &trees), Some("c2".to_string()), "the commit's own note first");
    assert_eq!(stamp_key("c9", &noted, &trees), Some("tree1".to_string()), "else its tree's");
}

#[test]
fn a_different_tree_gets_no_stamp_from_the_fallback() {
    let noted = strings(&["tree1"]);
    let trees = vec![("c3".to_string(), "tree3".to_string())];
    assert_eq!(stamp_key("c3", &noted, &trees), None);
    assert_eq!(stamp_key("c4", &noted, &trees), None);
}
