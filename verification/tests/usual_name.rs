use amont::usual_name::{identity, is_known, seen};

#[test]
fn matches_an_existing_author_literally() {
    let log = "    12\ttest all mighty <test@domain.test>\n     3\tOther <o@x.test>";
    assert!(seen(log, "test all mighty <test@domain.test>"));
    assert!(!seen(log, "test mighty <test@domain.test>"));
}

#[test]
fn regex_metacharacters_stay_literal() {
    let log = "     1\ttest dev all mighty <t@x.test>";
    assert!(!seen(log, "test (dev) all mighty <t@x.test>"));
    let log2 = "     1\ttest (dev) all mighty <t@x.test>";
    assert!(seen(log2, "test (dev) all mighty <t@x.test>"));
}

#[test]
fn an_identity_is_name_and_email() {
    assert_eq!(identity("Ada", "ada@x.test"), "Ada <ada@x.test>");
    assert_eq!(identity("", ""), " <>");
}

#[test]
fn the_memo_matches_whole_trimmed_lines() {
    let memo = "  Ada <ada@x.test>\nBob <b@x.test>\n";
    assert!(is_known(memo, "Ada <ada@x.test>"));
    assert!(!is_known(memo, "Ada"));
    assert!(!is_known("", "Ada <ada@x.test>"));
}
