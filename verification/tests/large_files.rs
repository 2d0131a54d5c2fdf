use amont::check::{Outcome, Severity};
use amont::large_files::{staged, MB};

const DEFAULTS: (u64, u64) = (10 * MB, 100 * MB);

#[test]
fn the_largest_staged_file_decides_the_outcome() {
    let files = vec![
        ("small.txt".to_string(), 1024),
        ("video.mp4".to_string(), 150 * MB),
        ("dump.sql".to_string(), 12 * MB),
    ];
    let (outcome, lines) = staged(&files, DEFAULTS);
    assert_eq!(outcome, Outcome::Failed);
    assert_eq!(lines.len(), 2);
    assert_eq!(lines[0].0, Severity::Block);
    assert!(lines[0].1.starts_with("large-files: video.mp4 is 150 MB \u{2014} over the 100 MB limit"));
    assert_eq!(lines[1].0, Severity::Warn);
    assert!(lines[1].1.starts_with("large-files: dump.sql is 12 MB \u{2014} every future clone pays"));
}

#[test]
fn only_warnings_warn_and_nothing_passes() {
    let (outcome, lines) = staged(&[("dump.sql".to_string(), 10 * MB)], DEFAULTS);
    assert_eq!(outcome, Outcome::Warned);
    assert_eq!(lines.len(), 1);
    let (outcome, lines) = staged(&[("a".to_string(), 10 * MB - 1)], DEFAULTS);
    assert_eq!(outcome, Outcome::Passed);
    assert!(lines.is_empty());
    assert_eq!(staged(&[], DEFAULTS), (Outcome::Passed, vec![]));
}
