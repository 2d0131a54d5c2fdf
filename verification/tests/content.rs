use amont::check::Severity;
use amont::content::{scan, sorted};
use amont::finding::Finding;
use amont::large_files::{thresholds, MB};

fn scan_default(file: &str, bytes: &[u8]) -> Vec<Finding> {
    scan(file, bytes, thresholds(None, None))
}

#[test]
fn a_clean_file_has_nothing_to_say() {
    assert!(scan_default("app.js", b"const x = 1;\n").is_empty());
}

#[test]
fn a_banned_term_is_placed() {
    let f = scan_default("app.js", b"const x = 1;\n\n  debugger;\n");
    assert_eq!(f.len(), 1);
    assert_eq!(f[0].check, "ban-terms");
    assert_eq!(f[0].line, Some(3));
    assert_eq!(f[0].column, Some(3));
}

#[test]
fn scope_is_respected_outside_the_index_too() {
    assert!(scan_default("notes.txt", b"debugger;\n").is_empty());
}

#[test]
fn a_binary_file_is_sized_but_not_read() {
    let mut bytes = vec![0u8; 200];
    bytes.extend_from_slice(b"debugger;");
    let f = scan_default("blob.js", &bytes);
    assert!(f.iter().all(|f| f.check != "ban-terms"), "{f:?}");
}

#[test]
fn findings_are_ordered_for_reading() {
    let whole = Finding::new("large-files", "a.js", Severity::Warn, "x");
    let late = Finding::new("ban-terms", "a.js", Severity::Block, "y").at_line(9);
    let early = Finding::new("secrets", "a.js", Severity::Block, "z").at_line(2);
    let out = sorted(vec![late, whole, early]);
    assert_eq!(
        out.iter().map(|f| f.line).collect::<Vec<_>>(),
        vec![None, Some(2), Some(9)]
    );
}

#[test]
fn a_file_over_the_warning_size_is_reported_first() {
    let f = scan("app.js", b"x\n  debugger;\n", (4, 100));
    assert_eq!(f.len(), 2);
    assert_eq!(f[0].check, "large-files");
    assert_eq!(f[0].severity, Severity::Warn);
    assert_eq!(f[0].line, None);
    assert_eq!(f[1].check, "ban-terms");
    let blocked = scan("app.js", b"0123456789", (4, 8));
    assert_eq!(blocked[0].severity, Severity::Block);
    assert_eq!(thresholds(None, None), (10 * MB, 100 * MB));
}

#[test]
fn findings_on_one_line_order_by_column_then_check() {
    let a = Finding::new("secrets", "f", Severity::Block, "a").at_offset("abcdef", 3);
    let b = Finding::new("ban-terms", "f", Severity::Block, "b").at_offset("abcdef", 3);
    let c = Finding::new("zzz", "f", Severity::Block, "c").at_offset("abcdef", 1);
    let out = sorted(vec![a, b, c]);
    let got: Vec<(&str, Option<usize>)> = out.iter().map(|f| (f.check, f.column)).collect();
    assert_eq!(got, vec![("zzz", Some(2)), ("ban-terms", Some(4)), ("secrets", Some(4))]);
}
