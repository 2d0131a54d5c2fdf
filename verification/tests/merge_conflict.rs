use amont::merge_conflict::{is_own_test, markers, scan};

#[test]
fn the_markers_are_the_real_seven_character_ones() {
    let m = markers();
    assert_eq!(m[0].len(), 7);
    assert_eq!(m[0], "<".repeat(7));
    assert_eq!(m[1], "=".repeat(7));
    assert_eq!(m[2], ">".repeat(7));
}

#[test]
fn the_hooks_own_test_is_excluded() {
    let n = "pre-commit-merge-conflict";
    assert!(is_own_test("tests/pre-commit-merge-conflict.test.zsh", n));
    assert!(!is_own_test("tests/pre-commit-ban-terms.test.zsh", n));
    assert!(!is_own_test("src/main.rs", n));
}

/// A source that builds its markers, as the check's own does, holds none
/// literally and passes its own scan.
#[test]
fn this_file_contains_no_literal_marker() {
    let src = "fn seven(c: char) -> String { std::iter::repeat(c).take(7).collect() }\n\
               let m = [seven('<'), seven('='), seven('>')];\n";
    for m in markers() {
        assert!(!src.contains(&m), "literal marker present");
    }
    assert!(scan("src/hooks/merge_conflict.rs", src, "pre-commit-merge-conflict").is_empty());
}

#[test]
fn a_conflict_is_reported_at_its_first_marker_line() {
    let [a, b, c] = markers();
    let text = format!("keep\n{a} HEAD\nours\n{b}\ntheirs\n{c} branch\n");
    let f = scan("x.txt", &text, "pre-commit-merge-conflict");
    assert_eq!(f.len(), 1);
    assert_eq!(f[0].line, Some(2));
    assert_eq!(f[0].column, None);
    assert_eq!(f[0].message, "unresolved merge conflict markers");
    assert!(scan("x.txt", &format!("{a}\n{b}\n"), "h").is_empty(), "all three are needed");
    assert!(
        scan("tests/h.test.zsh", &text, "h").is_empty(),
        "the hook's own test may hold them"
    );
}
